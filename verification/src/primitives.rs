//! Geometric primitives and their ray intersection routines.
//!
//! A closed variant set: spheres, the three axis-aligned rectangles, the
//! rectangular cuboid composed of six faces, and two geometric transforms
//! (translation and rotation about the Y axis) that wrap an inner primitive.
//! Every `hit` routine is verified against an exact integer-level mirror of
//! its computation.

use vstd::prelude::*;

verus! {

use crate::aabb::{B3, AABB};
use crate::fx::{fx_div, fx_div_spec, fx_mul, fx_mul_spec, iabs, sqrt_floor, tzdiv, COORD_MAX,
    SCALE, T_MAX_BOUND};
use crate::material::{Material, Scatterable};
use crate::ray::{as_h3, HitRecord, Ray, H3, NORMAL_MAX, ORIGIN_MAX, POS_MAX, R3};
use crate::vec3::{Vec3, V3};

/// Bound on a sphere's outward normal components: the unit bound with room
/// for fixed-point rounding.
pub const OUTWARD_MAX: i128 = 0x20000;

/// Orients `outward` against the ray direction: the record's normal always
/// points against the ray that was tested.
pub open spec fn face_normal_spec(direction: V3, outward: V3) -> (V3, bool) {
    let front_face = direction.dot_raw(outward) < 0;
    if front_face {
        (outward, true)
    } else {
        (outward.neg(), false)
    }
}

fn set_face_normal(ray_direction: &Vec3, outward_normal: Vec3) -> (r: (Vec3, bool))
    requires
        ray_direction@.bounded(COORD_MAX as int),
        outward_normal@.bounded(NORMAL_MAX as int),
    ensures
        (r.0@, r.1) == face_normal_spec(ray_direction@, outward_normal@),
        r.0@.dot_raw(ray_direction@) <= 0,
        r.0@.bounded(NORMAL_MAX as int),
        r.0@.dot_raw(r.0@) == outward_normal@.dot_raw(outward_normal@),
{
    proof {
        crate::vec3::lemma_bounded_norm_inf(ray_direction@, COORD_MAX as int);
        crate::vec3::lemma_bounded_norm_inf(outward_normal@, NORMAL_MAX as int);
        crate::vec3::lemma_mul_le(
            ray_direction@.norm_inf(),
            outward_normal@.norm_inf(),
            COORD_MAX as int,
            NORMAL_MAX as int,
        );
    }
    proof {
        crate::vec3::lemma_dot_raw_comm(ray_direction@, outward_normal@);
        crate::vec3::lemma_dot_raw_neg(outward_normal@, ray_direction@);
    }
    let front_face = ray_direction.dot_raw(&outward_normal) < 0;
    if front_face {
        (outward_normal, true)
    } else {
        (outward_normal.neg(), false)
    }
}

/// A sphere with its material.
#[derive(Clone, Copy, Debug)]
pub struct Sphere {
    pub center: Vec3,
    pub radius: i128,
    pub material: Material,
}

impl Sphere {
    pub fn new(center: Vec3, radius: i128, material: Material) -> (s: Sphere)
        ensures
            s.center == center,
            s.radius == radius,
            s.material == material,
    {
        Sphere { center, radius, material }
    }

    pub open spec fn wf(self) -> bool {
        &&& self.center@.bounded(COORD_MAX as int)
        &&& 1 <= iabs(self.radius as int) <= COORD_MAX as int
        &&& self.material.wf()
    }

    /// The exact intersection routine at the integer level: solve the
    /// quadratic, take the smaller admissible root, reject degenerate normals
    /// that fixed-point rounding cannot represent.
    pub open spec fn hit_spec(self, r: R3, t_min: int, t_max: int) -> Option<H3> {
        let oc = r.origin.sub(self.center@);
        let a = r.direction.dot(r.direction);
        if a <= 0 {
            None
        } else {
            let half_b = oc.dot(r.direction);
            let c = oc.dot(oc) - fx_mul_spec(self.radius as int, self.radius as int);
            let disc = fx_mul_spec(half_b, half_b) - fx_mul_spec(a, c);
            if disc < 0 {
                None
            } else {
                let sq = sqrt_floor((disc * SCALE as int) as nat) as int;
                let root_a = fx_div_spec(-half_b - sq, a);
                let root_b = fx_div_spec(-half_b + sq, a);
                if t_min < root_a < t_max {
                    self.hit_at(r, root_a)
                } else if t_min < root_b < t_max {
                    self.hit_at(r, root_b)
                } else {
                    None
                }
            }
        }
    }

    /// The record produced for a chosen root.
    pub open spec fn hit_at(self, r: R3, t: int) -> Option<H3> {
        let p = r.at(t);
        let outward = V3 {
            x: fx_div_spec(p.x - self.center@.x, self.radius as int),
            y: fx_div_spec(p.y - self.center@.y, self.radius as int),
            z: fx_div_spec(p.z - self.center@.z, self.radius as int),
        };
        if !outward.bounded(OUTWARD_MAX as int) || !((SCALE as int) * (SCALE as int) / 4
            <= outward.dot_raw(outward) <= 4 * ((SCALE as int) * (SCALE as int))) {
            None
        } else {
            let (normal, front_face) = face_normal_spec(r.direction, outward);
            Some(
                H3 {
                    position: p,
                    normal,
                    t,
                    material: self.material,
                    front_face,
                    incoming: r.direction,
                },
            )
        }
    }

    pub fn hit(&self, ray: &Ray, t_min: i128, t_max: i128) -> (res: Option<HitRecord>)
        requires
            self.wf(),
            ray@.bounded(),
            iabs(t_min as int) <= T_MAX_BOUND as int,
            iabs(t_max as int) <= T_MAX_BOUND as int,
        ensures
            as_h3(res) == self.hit_spec(ray@, t_min as int, t_max as int),
            res matches Some(h) ==> h.wf() && t_min < h.t < t_max && h.material == self.material,
    {
        proof {
            crate::vec3::lemma_bounded_norm_inf(ray.origin@, ORIGIN_MAX as int);
            crate::vec3::lemma_bounded_norm_inf(ray.direction@, COORD_MAX as int);
            crate::vec3::lemma_bounded_norm_inf(self.center@, COORD_MAX as int);
        }
        let oc = ray.origin.sub(&self.center);
        proof {
            crate::vec3::lemma_bounded_norm_inf(oc@, 0x12_0000_0000);
            crate::vec3::lemma_mul_le(
                ray.direction@.norm_inf(),
                ray.direction@.norm_inf(),
                COORD_MAX as int,
                COORD_MAX as int,
            );
            crate::vec3::lemma_mul_le(
                oc@.norm_inf(),
                ray.direction@.norm_inf(),
                0x12_0000_0000,
                COORD_MAX as int,
            );
            crate::vec3::lemma_mul_le(oc@.norm_inf(), oc@.norm_inf(), 0x12_0000_0000, 0x12_0000_0000);
        }
        let a = ray.direction.norm_squared();
        if a <= 0 {
            return None;
        }
        let half_b = oc.dot(&ray.direction);
        proof {
            crate::vec3::lemma_dot_product_bound(oc@, ray.direction@);
            crate::fx::lemma_tzdiv_le_bound(
                oc@.dot_raw(ray.direction@),
                SCALE as int,
                3 * 0x12_0000_0000int * (COORD_MAX as int),
            );
            crate::vec3::lemma_dot_product_bound(oc@, oc@);
            crate::fx::lemma_tzdiv_le_bound(
                oc@.dot_raw(oc@),
                SCALE as int,
                3 * 0x12_0000_0000int * 0x12_0000_0000,
            );
            crate::vec3::lemma_dot_product_bound(ray.direction@, ray.direction@);
            crate::fx::lemma_tzdiv_le_bound(
                ray.direction@.dot_raw(ray.direction@),
                SCALE as int,
                3 * (COORD_MAX as int) * (COORD_MAX as int),
            );
            crate::fx::lemma_abs_mul_bound(
                self.radius as int,
                self.radius as int,
                COORD_MAX as int,
                COORD_MAX as int,
            );
            crate::fx::lemma_tzdiv_le_bound(
                (self.radius as int) * (self.radius as int),
                SCALE as int,
                (COORD_MAX as int) * (COORD_MAX as int),
            );
        }
        let c = oc.norm_squared() - fx_mul(self.radius, self.radius);
        proof {
            crate::fx::lemma_abs_mul_bound(
                half_b as int,
                half_b as int,
                0x40_0000_0000_0000,
                0x40_0000_0000_0000,
            );
            crate::fx::lemma_abs_mul_bound(a as int, c as int, 0x1_0000_0000_0000, 0x800_0000_0000_0000_0000);
        }
        let disc = fx_mul(half_b, half_b) - fx_mul(a, c);
        if disc < 0 {
            return None;
        }
        let ds = disc * SCALE;
        let squ = crate::fx::isqrt(ds as u128);
        proof {
            assert(squ <= 0x1_0000_0000_0000_0000) by (nonlinear_arith)
                requires
                    squ * squ <= ds,
                    0 <= ds <= 0x1_0000_0000_0000_0000_0000_0000_0000_0000,
            ;
        }
        let sq = squ as i128;
        let root_a = fx_div(-half_b - sq, a);
        let root_b = fx_div(-half_b + sq, a);
        let root = if t_min < root_a && root_a < t_max {
            root_a
        } else if t_min < root_b && root_b < t_max {
            root_b
        } else {
            return None;
        };
        proof {
            crate::ray::lemma_at_bounded(ray@, root as int);
        }
        let p = ray.at(root);
        let outward = Vec3 {
            x: fx_div(p.x - self.center.x, self.radius),
            y: fx_div(p.y - self.center.y, self.radius),
            z: fx_div(p.z - self.center.z, self.radius),
        };
        if !outward.is_bounded(OUTWARD_MAX) {
            return None;
        }
        proof {
            crate::vec3::lemma_bounded_norm_inf(outward@, OUTWARD_MAX as int);
            crate::vec3::lemma_mul_le(
                outward@.norm_inf(),
                outward@.norm_inf(),
                OUTWARD_MAX as int,
                OUTWARD_MAX as int,
            );
        }
        let oraw = outward.dot_raw(&outward);
        if !(SCALE * SCALE / 4 <= oraw && oraw <= 4 * (SCALE * SCALE)) {
            return None;
        }
        let (normal, front_face) = set_face_normal(&ray.direction, outward);
        Some(
            HitRecord {
                position: p,
                normal,
                t: root,
                material: self.material,
                front_face,
                incoming: ray.direction,
            },
        )
    }

    /// The axis-aligned box `center - |radius| .. center + |radius|`: a
    /// hollow shell with negative radius spans the same box.
    pub fn bounding_box(&self) -> (r: Option<AABB>)
        requires
            self.wf(),
        ensures
            r matches Some(b) && b@ == self.bbox_spec() && b@.wf(),
    {
        let ar = if self.radius >= 0 {
            self.radius
        } else {
            -self.radius
        };
        let rv = Vec3 { x: ar, y: ar, z: ar };
        Some(AABB { minimum: self.center.sub(&rv), maximum: self.center.add(&rv) })
    }

    pub open spec fn bbox_spec(self) -> B3 {
        let ar = iabs(self.radius as int);
        let rv = V3 { x: ar, y: ar, z: ar };
        B3 { minimum: self.center@.sub(rv), maximum: self.center@.add(rv) }
    }
}

/// An axis-aligned rectangle in a plane of constant `z = k`.
#[derive(Clone, Copy, Debug, PartialEq, Eq, Structural)]
pub struct RectangleXY {
    pub x0: i128,
    pub x1: i128,
    pub y0: i128,
    pub y1: i128,
    pub k: i128,
    pub material: Material,
}

impl RectangleXY {
    pub fn new(x0: i128, x1: i128, y0: i128, y1: i128, k: i128, material: Material) -> (r:
        RectangleXY)
        ensures
            r == (RectangleXY { x0, x1, y0, y1, k, material }),
    {
        RectangleXY { x0, x1, y0, y1, k, material }
    }

    pub open spec fn wf(self) -> bool {
        &&& self.x0 <= self.x1
        &&& self.y0 <= self.y1
        &&& iabs(self.x0 as int) <= COORD_MAX as int
        &&& iabs(self.x1 as int) <= COORD_MAX as int
        &&& iabs(self.y0 as int) <= COORD_MAX as int
        &&& iabs(self.y1 as int) <= COORD_MAX as int
        &&& iabs(self.k as int) <= COORD_MAX as int
        &&& self.material.wf()
    }

    pub open spec fn spec_material(self) -> Material {
        self.material
    }

    /// Cross the plane, then test the two free coordinates against the
    /// bounds.  A ray parallel to the plane never intersects.
    pub open spec fn hit_spec(self, r: R3, t_min: int, t_max: int) -> Option<H3> {
        if r.direction.z == 0 {
            None
        } else {
            let t = fx_div_spec(self.k - r.origin.z, r.direction.z);
            if t < t_min || t > t_max {
                None
            } else {
                let p = r.at(t);
                if p.x < self.x0 || p.x > self.x1 || p.y < self.y0 || p.y > self.y1 {
                    None
                } else {
                    let outward = V3 { x: 0, y: 0, z: SCALE as int };
                    let (normal, front_face) = face_normal_spec(r.direction, outward);
                    Some(
                        H3 {
                            position: p,
                            normal,
                            t,
                            material: self.material,
                            front_face,
                            incoming: r.direction,
                        },
                    )
                }
            }
        }
    }

    pub fn hit(&self, ray: &Ray, t_min: i128, t_max: i128) -> (res: Option<HitRecord>)
        requires
            self.wf(),
            ray@.bounded(),
            iabs(t_min as int) <= T_MAX_BOUND as int,
            iabs(t_max as int) <= T_MAX_BOUND as int,
        ensures
            as_h3(res) == self.hit_spec(ray@, t_min as int, t_max as int),
            res matches Some(h) ==> h.wf() && t_min <= h.t <= t_max && h.material
                == self.spec_material(),
            ray.direction.z == 0 ==> res is None,
    {
        if ray.direction.z == 0 {
            return None;
        }
        let t = fx_div(self.k - ray.origin.z, ray.direction.z);
        if t < t_min || t > t_max {
            return None;
        }
        proof {
            crate::ray::lemma_at_bounded(ray@, t as int);
        }
        let p = ray.at(t);
        if p.x < self.x0 || p.x > self.x1 || p.y < self.y0 || p.y > self.y1 {
            return None;
        }
        let outward = Vec3 { x: 0, y: 0, z: SCALE };
        proof {
            assert(outward@.dot_raw(outward@) == (SCALE as int) * (SCALE as int))
                by (nonlinear_arith)
                requires
                    outward@.norm_inf() >= 0,
                    outward@ == (V3 { x: 0, y: 0, z: SCALE as int }) || outward@ == (V3 {
                        x: 0,
                        y: SCALE as int,
                        z: 0,
                    }) || outward@ == (V3 { x: SCALE as int, y: 0, z: 0 }),
            ;
        }
        let (normal, front_face) = set_face_normal(&ray.direction, outward);
        Some(
            HitRecord {
                position: p,
                normal,
                t,
                material: self.material,
                front_face,
                incoming: ray.direction,
            },
        )
    }

    /// The flat box spanned by the rectangle.
    pub fn bounding_box(&self) -> (r: Option<AABB>)
        requires
            self.wf(),
        ensures
            r matches Some(b) && b@ == self.bbox_spec() && b@.wf(),
    {
        Some(
            AABB {
                minimum: Vec3 { x: self.x0, y: self.y0, z: self.k },
                maximum: Vec3 { x: self.x1, y: self.y1, z: self.k },
            },
        )
    }

    pub open spec fn bbox_spec(self) -> B3 {
        B3 {
            minimum: V3 { x: self.x0 as int, y: self.y0 as int, z: self.k as int },
            maximum: V3 { x: self.x1 as int, y: self.y1 as int, z: self.k as int },
        }
    }

    /// Decides the rectangle's invariant at run time, for callers outside
    /// the verified core.
    pub fn check_wf(&self) -> (r: bool)
        ensures
            r == self.wf(),
    {
        self.x0 <= self.x1 && self.y0 <= self.y1 && -crate::fx::COORD_MAX <= self.x0
            && self.x1 <= crate::fx::COORD_MAX && -crate::fx::COORD_MAX <= self.y0
            && self.y1 <= crate::fx::COORD_MAX && -crate::fx::COORD_MAX <= self.k && self.k
            <= crate::fx::COORD_MAX && self.material.check_wf()
    }
}

/// An axis-aligned rectangle in a plane of constant `y = k`.
#[derive(Clone, Copy, Debug, PartialEq, Eq, Structural)]
pub struct RectangleXZ {
    pub x0: i128,
    pub x1: i128,
    pub z0: i128,
    pub z1: i128,
    pub k: i128,
    pub material: Material,
}

impl RectangleXZ {
    pub fn new(x0: i128, x1: i128, z0: i128, z1: i128, k: i128, material: Material) -> (r:
        RectangleXZ)
        ensures
            r == (RectangleXZ { x0, x1, z0, z1, k, material }),
    {
        RectangleXZ { x0, x1, z0, z1, k, material }
    }

    pub open spec fn wf(self) -> bool {
        &&& self.x0 <= self.x1
        &&& self.z0 <= self.z1
        &&& iabs(self.x0 as int) <= COORD_MAX as int
        &&& iabs(self.x1 as int) <= COORD_MAX as int
        &&& iabs(self.z0 as int) <= COORD_MAX as int
        &&& iabs(self.z1 as int) <= COORD_MAX as int
        &&& iabs(self.k as int) <= COORD_MAX as int
        &&& self.material.wf()
    }

    pub open spec fn spec_material(self) -> Material {
        self.material
    }

    pub open spec fn hit_spec(self, r: R3, t_min: int, t_max: int) -> Option<H3> {
        if r.direction.y == 0 {
            None
        } else {
            let t = fx_div_spec(self.k - r.origin.y, r.direction.y);
            if t < t_min || t > t_max {
                None
            } else {
                let p = r.at(t);
                if p.x < self.x0 || p.x > self.x1 || p.z < self.z0 || p.z > self.z1 {
                    None
                } else {
                    let outward = V3 { x: 0, y: SCALE as int, z: 0 };
                    let (normal, front_face) = face_normal_spec(r.direction, outward);
                    Some(
                        H3 {
                            position: p,
                            normal,
                            t,
                            material: self.material,
                            front_face,
                            incoming: r.direction,
                        },
                    )
                }
            }
        }
    }

    pub fn hit(&self, ray: &Ray, t_min: i128, t_max: i128) -> (res: Option<HitRecord>)
        requires
            self.wf(),
            ray@.bounded(),
            iabs(t_min as int) <= T_MAX_BOUND as int,
            iabs(t_max as int) <= T_MAX_BOUND as int,
        ensures
            as_h3(res) == self.hit_spec(ray@, t_min as int, t_max as int),
            res matches Some(h) ==> h.wf() && t_min <= h.t <= t_max && h.material
                == self.spec_material(),
            ray.direction.y == 0 ==> res is None,
    {
        if ray.direction.y == 0 {
            return None;
        }
        let t = fx_div(self.k - ray.origin.y, ray.direction.y);
        if t < t_min || t > t_max {
            return None;
        }
        proof {
            crate::ray::lemma_at_bounded(ray@, t as int);
        }
        let p = ray.at(t);
        if p.x < self.x0 || p.x > self.x1 || p.z < self.z0 || p.z > self.z1 {
            return None;
        }
        let outward = Vec3 { x: 0, y: SCALE, z: 0 };
        proof {
            assert(outward@.dot_raw(outward@) == (SCALE as int) * (SCALE as int))
                by (nonlinear_arith)
                requires
                    outward@.norm_inf() >= 0,
                    outward@ == (V3 { x: 0, y: 0, z: SCALE as int }) || outward@ == (V3 {
                        x: 0,
                        y: SCALE as int,
                        z: 0,
                    }) || outward@ == (V3 { x: SCALE as int, y: 0, z: 0 }),
            ;
        }
        let (normal, front_face) = set_face_normal(&ray.direction, outward);
        Some(
            HitRecord {
                position: p,
                normal,
                t,
                material: self.material,
                front_face,
                incoming: ray.direction,
            },
        )
    }

    /// The flat box spanned by the rectangle.
    pub fn bounding_box(&self) -> (r: Option<AABB>)
        requires
            self.wf(),
        ensures
            r matches Some(b) && b@ == self.bbox_spec() && b@.wf(),
    {
        Some(
            AABB {
                minimum: Vec3 { x: self.x0, y: self.k, z: self.z0 },
                maximum: Vec3 { x: self.x1, y: self.k, z: self.z1 },
            },
        )
    }

    pub open spec fn bbox_spec(self) -> B3 {
        B3 {
            minimum: V3 { x: self.x0 as int, y: self.k as int, z: self.z0 as int },
            maximum: V3 { x: self.x1 as int, y: self.k as int, z: self.z1 as int },
        }
    }

    /// Decides the rectangle's invariant at run time, for callers outside
    /// the verified core.
    pub fn check_wf(&self) -> (r: bool)
        ensures
            r == self.wf(),
    {
        self.x0 <= self.x1 && self.z0 <= self.z1 && -crate::fx::COORD_MAX <= self.x0
            && self.x1 <= crate::fx::COORD_MAX && -crate::fx::COORD_MAX <= self.z0
            && self.z1 <= crate::fx::COORD_MAX && -crate::fx::COORD_MAX <= self.k && self.k
            <= crate::fx::COORD_MAX && self.material.check_wf()
    }
}

/// An axis-aligned rectangle in a plane of constant `x = k`.
#[derive(Clone, Copy, Debug, PartialEq, Eq, Structural)]
pub struct RectangleYZ {
    pub y0: i128,
    pub y1: i128,
    pub z0: i128,
    pub z1: i128,
    pub k: i128,
    pub material: Material,
}

impl RectangleYZ {
    pub fn new(y0: i128, y1: i128, z0: i128, z1: i128, k: i128, material: Material) -> (r:
        RectangleYZ)
        ensures
            r == (RectangleYZ { y0, y1, z0, z1, k, material }),
    {
        RectangleYZ { y0, y1, z0, z1, k, material }
    }

    pub open spec fn wf(self) -> bool {
        &&& self.y0 <= self.y1
        &&& self.z0 <= self.z1
        &&& iabs(self.y0 as int) <= COORD_MAX as int
        &&& iabs(self.y1 as int) <= COORD_MAX as int
        &&& iabs(self.z0 as int) <= COORD_MAX as int
        &&& iabs(self.z1 as int) <= COORD_MAX as int
        &&& iabs(self.k as int) <= COORD_MAX as int
        &&& self.material.wf()
    }

    pub open spec fn spec_material(self) -> Material {
        self.material
    }

    pub open spec fn hit_spec(self, r: R3, t_min: int, t_max: int) -> Option<H3> {
        if r.direction.x == 0 {
            None
        } else {
            let t = fx_div_spec(self.k - r.origin.x, r.direction.x);
            if t < t_min || t > t_max {
                None
            } else {
                let p = r.at(t);
                if p.z < self.z0 || p.z > self.z1 || p.y < self.y0 || p.y > self.y1 {
                    None
                } else {
                    let outward = V3 { x: SCALE as int, y: 0, z: 0 };
                    let (normal, front_face) = face_normal_spec(r.direction, outward);
                    Some(
                        H3 {
                            position: p,
                            normal,
                            t,
                            material: self.material,
                            front_face,
                            incoming: r.direction,
                        },
                    )
                }
            }
        }
    }

    pub fn hit(&self, ray: &Ray, t_min: i128, t_max: i128) -> (res: Option<HitRecord>)
        requires
            self.wf(),
            ray@.bounded(),
            iabs(t_min as int) <= T_MAX_BOUND as int,
            iabs(t_max as int) <= T_MAX_BOUND as int,
        ensures
            as_h3(res) == self.hit_spec(ray@, t_min as int, t_max as int),
            res matches Some(h) ==> h.wf() && t_min <= h.t <= t_max && h.material
                == self.spec_material(),
            ray.direction.x == 0 ==> res is None,
    {
        if ray.direction.x == 0 {
            return None;
        }
        let t = fx_div(self.k - ray.origin.x, ray.direction.x);
        if t < t_min || t > t_max {
            return None;
        }
        proof {
            crate::ray::lemma_at_bounded(ray@, t as int);
        }
        let p = ray.at(t);
        if p.z < self.z0 || p.z > self.z1 || p.y < self.y0 || p.y > self.y1 {
            return None;
        }
        let outward = Vec3 { x: SCALE, y: 0, z: 0 };
        proof {
            assert(outward@.dot_raw(outward@) == (SCALE as int) * (SCALE as int))
                by (nonlinear_arith)
                requires
                    outward@.norm_inf() >= 0,
                    outward@ == (V3 { x: 0, y: 0, z: SCALE as int }) || outward@ == (V3 {
                        x: 0,
                        y: SCALE as int,
                        z: 0,
                    }) || outward@ == (V3 { x: SCALE as int, y: 0, z: 0 }),
            ;
        }
        let (normal, front_face) = set_face_normal(&ray.direction, outward);
        Some(
            HitRecord {
                position: p,
                normal,
                t,
                material: self.material,
                front_face,
                incoming: ray.direction,
            },
        )
    }

    /// The flat box spanned by the rectangle.
    pub fn bounding_box(&self) -> (r: Option<AABB>)
        requires
            self.wf(),
        ensures
            r matches Some(b) && b@ == self.bbox_spec() && b@.wf(),
    {
        Some(
            AABB {
                minimum: Vec3 { x: self.k, y: self.y0, z: self.z0 },
                maximum: Vec3 { x: self.k, y: self.y1, z: self.z1 },
            },
        )
    }

    pub open spec fn bbox_spec(self) -> B3 {
        B3 {
            minimum: V3 { x: self.k as int, y: self.y0 as int, z: self.z0 as int },
            maximum: V3 { x: self.k as int, y: self.y1 as int, z: self.z1 as int },
        }
    }

    /// Decides the rectangle's invariant at run time, for callers outside
    /// the verified core.
    pub fn check_wf(&self) -> (r: bool)
        ensures
            r == self.wf(),
    {
        self.y0 <= self.y1 && self.z0 <= self.z1 && -crate::fx::COORD_MAX <= self.y0
            && self.y1 <= crate::fx::COORD_MAX && -crate::fx::COORD_MAX <= self.z0
            && self.z1 <= crate::fx::COORD_MAX && -crate::fx::COORD_MAX <= self.k && self.k
            <= crate::fx::COORD_MAX && self.material.check_wf()
    }
}

/// Keeps the closer of a previous best hit and a new candidate; the
/// candidate was searched with the best hit's parameter as its upper window
/// bound, so a candidate always supersedes.
pub open spec fn closer(best: Option<H3>, cand: Option<H3>) -> Option<H3> {
    if cand is Some {
        cand
    } else {
        best
    }
}

/// The upper window bound for the next candidate: the best hit so far, else
/// the original bound.
pub open spec fn cur_max(best: Option<H3>, t_max: int) -> int {
    match best {
        Some(h) => h.t,
        None => t_max,
    }
}

/// A box spanned by two opposite corners, composed of its six face
/// rectangles, all carrying the same material.
pub struct RectangularCuboid {
    pub vertice0: Vec3,
    pub vertice1: Vec3,
    pub side0: RectangleXY,
    pub side1: RectangleXY,
    pub side2: RectangleXZ,
    pub side3: RectangleXZ,
    pub side4: RectangleYZ,
    pub side5: RectangleYZ,
}

impl RectangularCuboid {
    pub fn new(p0: Vec3, p1: Vec3, material: Material) -> (r: RectangularCuboid)
        ensures
            r == RectangularCuboid::make_spec(p0, p1, material),
    {
        RectangularCuboid {
            vertice0: p0,
            vertice1: p1,
            side0: RectangleXY::new(p0.x, p1.x, p0.y, p1.y, p1.z, material),
            side1: RectangleXY::new(p0.x, p1.x, p0.y, p1.y, p0.z, material),
            side2: RectangleXZ::new(p0.x, p1.x, p0.z, p1.z, p1.y, material),
            side3: RectangleXZ::new(p0.x, p1.x, p0.z, p1.z, p0.y, material),
            side4: RectangleYZ::new(p0.y, p1.y, p0.z, p1.z, p1.x, material),
            side5: RectangleYZ::new(p0.y, p1.y, p0.z, p1.z, p0.x, material),
        }
    }

    /// The six faces of the box spanned by `p0` and `p1`.
    pub open spec fn make_spec(p0: Vec3, p1: Vec3, material: Material) -> RectangularCuboid {
        RectangularCuboid {
            vertice0: p0,
            vertice1: p1,
            side0: RectangleXY { x0: p0.x, x1: p1.x, y0: p0.y, y1: p1.y, k: p1.z, material },
            side1: RectangleXY { x0: p0.x, x1: p1.x, y0: p0.y, y1: p1.y, k: p0.z, material },
            side2: RectangleXZ { x0: p0.x, x1: p1.x, z0: p0.z, z1: p1.z, k: p1.y, material },
            side3: RectangleXZ { x0: p0.x, x1: p1.x, z0: p0.z, z1: p1.z, k: p0.y, material },
            side4: RectangleYZ { y0: p0.y, y1: p1.y, z0: p0.z, z1: p1.z, k: p1.x, material },
            side5: RectangleYZ { y0: p0.y, y1: p1.y, z0: p0.z, z1: p1.z, k: p0.x, material },
        }
    }

    /// Well-formed: the six sides are exactly the faces of the vertex span,
    /// with one common material.
    pub open spec fn wf(self) -> bool {
        &&& self == RectangularCuboid::make_spec(
            self.vertice0,
            self.vertice1,
            self.side0.material,
        )
        &&& self.side0.wf()
        &&& self.side1.wf()
        &&& self.side2.wf()
        &&& self.side3.wf()
        &&& self.side4.wf()
        &&& self.side5.wf()
    }

    pub open spec fn spec_material(self) -> Material {
        self.side0.material
    }

    /// The closest qualifying hit over the six faces, each searched below
    /// the best parameter found so far.
    pub open spec fn hit_spec(self, r: R3, t_min: int, t_max: int) -> Option<H3> {
        let b0 = closer(None, self.side0.hit_spec(r, t_min, t_max));
        let b1 = closer(b0, self.side1.hit_spec(r, t_min, cur_max(b0, t_max)));
        let b2 = closer(b1, self.side2.hit_spec(r, t_min, cur_max(b1, t_max)));
        let b3 = closer(b2, self.side3.hit_spec(r, t_min, cur_max(b2, t_max)));
        let b4 = closer(b3, self.side4.hit_spec(r, t_min, cur_max(b3, t_max)));
        closer(b4, self.side5.hit_spec(r, t_min, cur_max(b4, t_max)))
    }

    pub fn hit(&self, ray: &Ray, t_min: i128, t_max: i128) -> (res: Option<HitRecord>)
        requires
            self.wf(),
            ray@.bounded(),
            iabs(t_min as int) <= T_MAX_BOUND as int,
            iabs(t_max as int) <= T_MAX_BOUND as int,
        ensures
            as_h3(res) == self.hit_spec(ray@, t_min as int, t_max as int),
            res matches Some(h) ==> h.wf() && t_min <= h.t <= t_max && h.material
                == self.spec_material(),
    {
        let mut closest_so_far = t_max;
        let mut hit_record: Option<HitRecord> = None;
        if let Some(h) = self.side0.hit(ray, t_min, closest_so_far) {
            closest_so_far = h.t;
            hit_record = Some(h);
        }
        if let Some(h) = self.side1.hit(ray, t_min, closest_so_far) {
            closest_so_far = h.t;
            hit_record = Some(h);
        }
        if let Some(h) = self.side2.hit(ray, t_min, closest_so_far) {
            closest_so_far = h.t;
            hit_record = Some(h);
        }
        if let Some(h) = self.side3.hit(ray, t_min, closest_so_far) {
            closest_so_far = h.t;
            hit_record = Some(h);
        }
        if let Some(h) = self.side4.hit(ray, t_min, closest_so_far) {
            closest_so_far = h.t;
            hit_record = Some(h);
        }
        if let Some(h) = self.side5.hit(ray, t_min, closest_so_far) {
            closest_so_far = h.t;
            hit_record = Some(h);
        }
        hit_record
    }

    /// The box spanned by the two corners.
    pub fn bounding_box(&self) -> (r: Option<AABB>)
        requires
            self.wf(),
        ensures
            r matches Some(b) && b@ == self.bbox_spec() && b@.wf(),
    {
        Some(AABB { minimum: self.vertice0, maximum: self.vertice1 })
    }

    pub open spec fn bbox_spec(self) -> B3 {
        B3 { minimum: self.vertice0@, maximum: self.vertice1@ }
    }
}

/// A primitive shifted by a constant offset.
pub struct Translate {
    pub hittable: Box<Primitive>,
    pub offset: Vec3,
}

impl Translate {
    pub fn new(hittable: Box<Primitive>, offset: Vec3) -> (r: Translate)
        ensures
            r.hittable == hittable,
            r.offset == offset,
    {
        Translate { hittable, offset }
    }
}

/// A primitive rotated about the Y axis, by an angle stored as its sine and
/// cosine.
pub struct RotateY {
    pub sin_theta: i128,
    pub cos_theta: i128,
    pub hittable: Box<Primitive>,
}

impl RotateY {
    pub fn new(sin_theta: i128, cos_theta: i128, hittable: Box<Primitive>) -> (r: RotateY)
        ensures
            r.sin_theta == sin_theta,
            r.cos_theta == cos_theta,
            r.hittable == hittable,
    {
        RotateY { sin_theta, cos_theta, hittable }
    }
}

/// Rotation into the local frame: `(c*x - s*z, y, s*x + c*z)`.
pub open spec fn rot_in_spec(v: V3, s: int, c: int) -> V3 {
    V3 {
        x: fx_mul_spec(c, v.x) - fx_mul_spec(s, v.z),
        y: v.y,
        z: fx_mul_spec(s, v.x) + fx_mul_spec(c, v.z),
    }
}

/// Rotation back to the world frame: `(c*x + s*z, y, c*z - s*x)`.
pub open spec fn rot_out_spec(v: V3, s: int, c: int) -> V3 {
    V3 {
        x: fx_mul_spec(c, v.x) + fx_mul_spec(s, v.z),
        y: v.y,
        z: fx_mul_spec(c, v.z) - fx_mul_spec(s, v.x),
    }
}

/// Magnitude bound for vectors fed to the rotation helpers.
pub const ROT_IN_MAX: i128 = 0x200_0000_0000_0000_0000;

fn rotate_in(v: &Vec3, s: i128, c: i128) -> (r: Vec3)
    requires
        iabs(s as int) <= SCALE as int,
        iabs(c as int) <= SCALE as int,
        v@.bounded(ROT_IN_MAX as int),
    ensures
        r@ == rot_in_spec(v@, s as int, c as int),
        r@.bounded(2 * ROT_IN_MAX as int),
{
    proof {
        lemma_rot_products(v@, s as int, c as int);
    }
    Vec3 {
        x: fx_mul(c, v.x) - fx_mul(s, v.z),
        y: v.y,
        z: fx_mul(s, v.x) + fx_mul(c, v.z),
    }
}

fn rotate_out(v: &Vec3, s: i128, c: i128) -> (r: Vec3)
    requires
        iabs(s as int) <= SCALE as int,
        iabs(c as int) <= SCALE as int,
        v@.bounded(ROT_IN_MAX as int),
    ensures
        r@ == rot_out_spec(v@, s as int, c as int),
        r@.bounded(2 * ROT_IN_MAX as int),
{
    proof {
        lemma_rot_products(v@, s as int, c as int);
    }
    Vec3 {
        x: fx_mul(c, v.x) + fx_mul(s, v.z),
        y: v.y,
        z: fx_mul(c, v.z) - fx_mul(s, v.x),
    }
}

proof fn lemma_rot_products(v: V3, s: int, c: int)
    requires
        iabs(s) <= SCALE as int,
        iabs(c) <= SCALE as int,
        v.bounded(ROT_IN_MAX as int),
    ensures
        iabs(c) * iabs(v.x) <= (SCALE as int) * (ROT_IN_MAX as int),
        iabs(c) * iabs(v.z) <= (SCALE as int) * (ROT_IN_MAX as int),
        iabs(s) * iabs(v.x) <= (SCALE as int) * (ROT_IN_MAX as int),
        iabs(s) * iabs(v.z) <= (SCALE as int) * (ROT_IN_MAX as int),
        iabs(fx_mul_spec(c as int, v.x)) <= ROT_IN_MAX as int,
        iabs(fx_mul_spec(c as int, v.z)) <= ROT_IN_MAX as int,
        iabs(fx_mul_spec(s as int, v.x)) <= ROT_IN_MAX as int,
        iabs(fx_mul_spec(s as int, v.z)) <= ROT_IN_MAX as int,
{
    crate::fx::lemma_abs_mul_bound(c, v.x, SCALE as int, ROT_IN_MAX as int);
    crate::fx::lemma_abs_mul_bound(c, v.z, SCALE as int, ROT_IN_MAX as int);
    crate::fx::lemma_abs_mul_bound(s, v.x, SCALE as int, ROT_IN_MAX as int);
    crate::fx::lemma_abs_mul_bound(s, v.z, SCALE as int, ROT_IN_MAX as int);
    crate::fx::lemma_tzdiv_le_bound(c * v.x, SCALE as int, (SCALE as int) * (ROT_IN_MAX as int));
    crate::fx::lemma_tzdiv_le_bound(c * v.z, SCALE as int, (SCALE as int) * (ROT_IN_MAX as int));
    crate::fx::lemma_tzdiv_le_bound(s * v.x, SCALE as int, (SCALE as int) * (ROT_IN_MAX as int));
    crate::fx::lemma_tzdiv_le_bound(s * v.z, SCALE as int, (SCALE as int) * (ROT_IN_MAX as int));
    assert((SCALE as int) * (ROT_IN_MAX as int) / (SCALE as int) == ROT_IN_MAX as int) by {
        vstd::arithmetic::div_mod::lemma_div_multiples_vanish(ROT_IN_MAX as int, SCALE as int);
    };
}

/// The closed set of primitives, dispatching by variant.
pub enum Primitive {
    Sphere(Sphere),
    RectangleXY(RectangleXY),
    RectangleXZ(RectangleXZ),
    RectangleYZ(RectangleYZ),
    RectangularCuboid(RectangularCuboid),
    Translate(Translate),
    RotateY(RotateY),
}

impl Primitive {
    pub open spec fn wf(self) -> bool
        decreases self,
    {
        match self {
            Primitive::Sphere(s) => s.wf(),
            Primitive::RectangleXY(r) => r.wf(),
            Primitive::RectangleXZ(r) => r.wf(),
            Primitive::RectangleYZ(r) => r.wf(),
            Primitive::RectangularCuboid(c) => c.wf(),
            Primitive::Translate(t) => t.offset@.bounded(COORD_MAX as int) && t.hittable.wf(),
            Primitive::RotateY(ry) => {
                let s = ry.sin_theta as int;
                let c = ry.cos_theta as int;
                &&& iabs(s) <= SCALE as int
                &&& iabs(c) <= SCALE as int
                &&& iabs(s * s + c * c - (SCALE as int) * (SCALE as int)) <= 8 * SCALE as int
                &&& ry.hittable.wf()
            },
        }
    }

    /// The intersection routine, dispatching by variant; the geometric
    /// transforms test the ray in the child's local frame, re-derive the
    /// world-frame record, and reject records whose fixed-point coordinates
    /// leave the representable range.
    pub open spec fn hit_spec(self, r: R3, t_min: int, t_max: int) -> Option<H3>
        decreases self,
    {
        match self {
            Primitive::Sphere(s) => s.hit_spec(r, t_min, t_max),
            Primitive::RectangleXY(rc) => rc.hit_spec(r, t_min, t_max),
            Primitive::RectangleXZ(rc) => rc.hit_spec(r, t_min, t_max),
            Primitive::RectangleYZ(rc) => rc.hit_spec(r, t_min, t_max),
            Primitive::RectangularCuboid(c) => c.hit_spec(r, t_min, t_max),
            Primitive::Translate(tr) => {
                let moved = R3 { origin: r.origin.sub(tr.offset@), direction: r.direction };
                if !moved.origin.bounded(ORIGIN_MAX as int) {
                    None
                } else {
                    match tr.hittable.hit_spec(moved, t_min, t_max) {
                        None => None,
                        Some(h) => {
                            let pos = h.position.add(tr.offset@);
                            if !pos.bounded(POS_MAX as int) {
                                None
                            } else {
                                Some(
                                    H3 {
                                        position: pos,
                                        normal: h.normal,
                                        t: h.t,
                                        material: h.material,
                                        front_face: h.front_face,
                                        incoming: h.incoming,
                                    },
                                )
                            }
                        },
                    }
                }
            },
            Primitive::RotateY(ry) => {
                let s = ry.sin_theta as int;
                let c = ry.cos_theta as int;
                let o2 = rot_in_spec(r.origin, s, c);
                let d2 = rot_in_spec(r.direction, s, c);
                if !o2.bounded(ORIGIN_MAX as int) || !d2.bounded(COORD_MAX as int) {
                    None
                } else {
                    let rotated = R3 { origin: o2, direction: d2 };
                    match ry.hittable.hit_spec(rotated, t_min, t_max) {
                        None => None,
                        Some(h) => {
                            let pos = rot_out_spec(h.position, s, c);
                            let back = rot_out_spec(h.normal, s, c);
                            if !pos.bounded(POS_MAX as int) || !back.bounded(
                                NORMAL_MAX as int,
                            ) || !((SCALE as int) * (SCALE as int) / 4 <= back.dot_raw(back) <= 4
                                * ((SCALE as int) * (SCALE as int))) {
                                None
                            } else {
                                let normal = if back.dot_raw(r.direction) <= 0 {
                                    back
                                } else {
                                    back.neg()
                                };
                                Some(
                                    H3 {
                                        position: pos,
                                        normal,
                                        t: h.t,
                                        material: h.material,
                                        front_face: h.front_face,
                                        incoming: r.direction,
                                    },
                                )
                            }
                        },
                    }
                }
            },
        }
    }

    pub fn hit(&self, ray: &Ray, t_min: i128, t_max: i128) -> (res: Option<HitRecord>)
        requires
            self.wf(),
            ray@.bounded(),
            iabs(t_min as int) <= T_MAX_BOUND as int,
            iabs(t_max as int) <= T_MAX_BOUND as int,
        ensures
            as_h3(res) == self.hit_spec(ray@, t_min as int, t_max as int),
            res matches Some(h) ==> h.wf() && t_min <= h.t <= t_max && h.material.wf(),
        decreases *self,
    {
        match self {
            Primitive::Sphere(s) => s.hit(ray, t_min, t_max),
            Primitive::RectangleXY(rc) => rc.hit(ray, t_min, t_max),
            Primitive::RectangleXZ(rc) => rc.hit(ray, t_min, t_max),
            Primitive::RectangleYZ(rc) => rc.hit(ray, t_min, t_max),
            Primitive::RectangularCuboid(c) => c.hit(ray, t_min, t_max),
            Primitive::Translate(tr) => {
                let moved_origin = ray.origin.sub(&tr.offset);
                let moved_ray = Ray { origin: moved_origin, direction: ray.direction };
                if !moved_origin.is_bounded(ORIGIN_MAX) {
                    return None;
                }
                match tr.hittable.hit(&moved_ray, t_min, t_max) {
                    None => None,
                    Some(h) => {
                        let pos = h.position.add(&tr.offset);
                        if !pos.is_bounded(POS_MAX) {
                            return None;
                        }
                        Some(
                            HitRecord {
                                position: pos,
                                normal: h.normal,
                                t: h.t,
                                material: h.material,
                                front_face: h.front_face,
                                incoming: h.incoming,
                            },
                        )
                    },
                }
            },
            Primitive::RotateY(ry) => {
                let o2 = rotate_in(&ray.origin, ry.sin_theta, ry.cos_theta);
                let d2 = rotate_in(&ray.direction, ry.sin_theta, ry.cos_theta);
                if !o2.is_bounded(ORIGIN_MAX) || !d2.is_bounded(COORD_MAX) {
                    return None;
                }
                let rotated_ray = Ray { origin: o2, direction: d2 };
                match ry.hittable.hit(&rotated_ray, t_min, t_max) {
                    None => None,
                    Some(h) => {
                        let pos = rotate_out(&h.position, ry.sin_theta, ry.cos_theta);
                        let back = rotate_out(&h.normal, ry.sin_theta, ry.cos_theta);
                        if !pos.is_bounded(POS_MAX) || !back.is_bounded(NORMAL_MAX) {
                            return None;
                        }
                        proof {
                            crate::vec3::lemma_bounded_norm_inf(back@, NORMAL_MAX as int);
                            crate::vec3::lemma_mul_le(
                                back@.norm_inf(),
                                back@.norm_inf(),
                                NORMAL_MAX as int,
                                NORMAL_MAX as int,
                            );
                        }
                        let braw = back.dot_raw(&back);
                        if !(SCALE * SCALE / 4 <= braw && braw <= 4 * (SCALE * SCALE)) {
                            return None;
                        }
                        proof {
                            crate::vec3::lemma_bounded_norm_inf(back@, NORMAL_MAX as int);
                            crate::vec3::lemma_bounded_norm_inf(
                                ray.direction@,
                                COORD_MAX as int,
                            );
                            crate::vec3::lemma_mul_le(
                                back@.norm_inf(),
                                ray.direction@.norm_inf(),
                                NORMAL_MAX as int,
                                COORD_MAX as int,
                            );
                        }
                        let normal = if back.dot_raw(&ray.direction) <= 0 {
                            back
                        } else {
                            back.neg()
                        };
                        proof {
                            crate::vec3::lemma_dot_raw_comm(back@, ray.direction@);
                            crate::vec3::lemma_dot_raw_neg(back@, ray.direction@);
                            crate::vec3::lemma_dot_raw_comm(back@.neg(), ray.direction@);
                        }
                        Some(
                            HitRecord {
                                position: pos,
                                normal,
                                t: h.t,
                                material: h.material,
                                front_face: h.front_face,
                                incoming: ray.direction,
                            },
                        )
                    },
                }
            },
        }
    }

    /// The bounding box, where one is defined: rotated geometry reports
    /// none and falls back to the unpruned scan.
    pub open spec fn bbox_spec(self) -> Option<B3>
        decreases self,
    {
        match self {
            Primitive::Sphere(s) => Some(s.bbox_spec()),
            Primitive::RectangleXY(r) => Some(r.bbox_spec()),
            Primitive::RectangleXZ(r) => Some(r.bbox_spec()),
            Primitive::RectangleYZ(r) => Some(r.bbox_spec()),
            Primitive::RectangularCuboid(c) => Some(c.bbox_spec()),
            Primitive::Translate(tr) => {
                match tr.hittable.bbox_spec() {
                    None => None,
                    Some(b) => {
                        let shifted = B3 {
                            minimum: b.minimum.add(tr.offset@),
                            maximum: b.maximum.add(tr.offset@),
                        };
                        if shifted.minimum.bounded(crate::aabb::BOX_MAX as int)
                            && shifted.maximum.bounded(crate::aabb::BOX_MAX as int) {
                            Some(shifted)
                        } else {
                            None
                        }
                    },
                }
            },
            Primitive::RotateY(ry) => None,
        }
    }

    pub fn bounding_box(&self) -> (r: Option<AABB>)
        requires
            self.wf(),
        ensures
            crate::aabb::as_b3(r) == self.bbox_spec(),
            r matches Some(b) ==> b@.wf(),
        decreases *self,
    {
        match self {
            Primitive::Sphere(s) => s.bounding_box(),
            Primitive::RectangleXY(rc) => rc.bounding_box(),
            Primitive::RectangleXZ(rc) => rc.bounding_box(),
            Primitive::RectangleYZ(rc) => rc.bounding_box(),
            Primitive::RectangularCuboid(c) => c.bounding_box(),
            Primitive::Translate(tr) => {
                match tr.hittable.bounding_box() {
                    None => None,
                    Some(b) => {
                        let minimum = b.minimum.add(&tr.offset);
                        let maximum = b.maximum.add(&tr.offset);
                        if minimum.is_bounded(crate::aabb::BOX_MAX) && maximum.is_bounded(
                            crate::aabb::BOX_MAX,
                        ) {
                            Some(AABB { minimum, maximum })
                        } else {
                            None
                        }
                    },
                }
            },
            Primitive::RotateY(ry) => None,
        }
    }

    /// Decides the primitive's invariant at run time, for callers outside
    /// the verified core.
    pub fn check_wf(&self) -> (r: bool)
        ensures
            r == self.wf(),
        decreases *self,
    {
        match self {
            Primitive::Sphere(s) => {
                let ar = if s.radius >= 0 {
                    s.radius
                } else if s.radius > i128::MIN {
                    -s.radius
                } else {
                    return false;
                };
                s.center.is_bounded(crate::fx::COORD_MAX) && 1 <= ar && ar <= crate::fx::COORD_MAX
                    && s.material.check_wf()
            },
            Primitive::RectangleXY(rc) => rc.check_wf(),
            Primitive::RectangleXZ(rc) => rc.check_wf(),
            Primitive::RectangleYZ(rc) => rc.check_wf(),
            Primitive::RectangularCuboid(c) => {
                let expected = RectangularCuboid::new(c.vertice0, c.vertice1, c.side0.material);
                c.side0 == expected.side0 && c.side1 == expected.side1 && c.side2 == expected.side2
                    && c.side3 == expected.side3 && c.side4 == expected.side4 && c.side5
                    == expected.side5 && c.side0.check_wf() && c.side1.check_wf()
                    && c.side2.check_wf() && c.side3.check_wf() && c.side4.check_wf()
                    && c.side5.check_wf()
            },
            Primitive::Translate(tr) => tr.offset.is_bounded(crate::fx::COORD_MAX)
                && tr.hittable.check_wf(),
            Primitive::RotateY(ry) => {
                let s_ok = -SCALE <= ry.sin_theta && ry.sin_theta <= SCALE;
                let c_ok = -SCALE <= ry.cos_theta && ry.cos_theta <= SCALE;
                if !(s_ok && c_ok) {
                    return false;
                }
                proof {
                    crate::fx::lemma_abs_mul_bound(
                        ry.sin_theta as int,
                        ry.sin_theta as int,
                        SCALE as int,
                        SCALE as int,
                    );
                    crate::fx::lemma_abs_mul_bound(
                        ry.cos_theta as int,
                        ry.cos_theta as int,
                        SCALE as int,
                        SCALE as int,
                    );
                }
                let pyth = ry.sin_theta * ry.sin_theta + ry.cos_theta * ry.cos_theta - SCALE
                    * SCALE;
                -8 * SCALE <= pyth && pyth <= 8 * SCALE && ry.hittable.check_wf()
            },
        }
    }
}

/// A law of sphere intersection: along a principal axis, at scales the
/// fixed-point arithmetic represents exactly, the returned hit lies exactly
/// on the sphere's surface — the squared distance from the center equals
/// the squared radius — and its normal is oriented against the ray.
pub proof fn lemma_sphere_hit_on_surface(s: Sphere, r: R3, k: int, m: int)
    requires
        s.wf(),
        1 <= m < k <= 1024,
        s.radius == m * SCALE,
        r.direction == (V3 { x: 0, y: 0, z: -SCALE as int }),
        r.origin == (V3 { x: s.center@.x, y: s.center@.y, z: s.center@.z + k * SCALE }),
    ensures
        ({
            let res = s.hit_spec(r, 0, T_MAX_BOUND as int);
            &&& res is Some
            &&& res->Some_0.t == (k - m) * SCALE
            &&& {
                let d = res->Some_0.position.sub(s.center@);
                d.dot_raw(d) == (s.radius as int) * (s.radius as int)
            }
            &&& res->Some_0.normal.dot_raw(r.direction) <= 0
        }),
{
    let sc = SCALE as int;
    let oc = r.origin.sub(s.center@);
    assert(oc == (V3 { x: 0, y: 0, z: k * sc }));

    // a = 1 (in fixed-point units)
    assert(r.direction.dot_raw(r.direction) == sc * sc) by (nonlinear_arith)
        requires
            r.direction == (V3 { x: 0, y: 0, z: -sc }),
            sc == SCALE as int,
    ;
    assert(r.direction.dot(r.direction) == sc) by {
        crate::vec3::lemma_fx_mul_scale(sc);
        assert(fx_mul_spec(sc, sc) == tzdiv(sc * sc, sc));
    };
    let a = r.direction.dot(r.direction);

    // half_b = -k
    assert(oc.dot_raw(r.direction) == -((k * sc) * sc)) by (nonlinear_arith)
        requires
            oc == (V3 { x: 0, y: 0, z: k * sc }),
            r.direction == (V3 { x: 0, y: 0, z: -sc }),
    ;
    assert(oc.dot(r.direction) == -(k * sc)) by {
        crate::vec3::lemma_fx_mul_scale(-(k * sc));
        assert(fx_mul_spec(-(k * sc), sc) == tzdiv(-(k * sc) * sc, sc));
        assert(-((k * sc) * sc) == -(k * sc) * sc) by (nonlinear_arith);
    };
    let half_b = oc.dot(r.direction);

    // |oc|^2 = k^2, radius^2 = m^2
    assert(oc.dot_raw(oc) == (k * k * sc) * sc) by (nonlinear_arith)
        requires
            oc == (V3 { x: 0, y: 0, z: k * sc }),
    ;
    assert(oc.dot(oc) == k * k * sc) by {
        crate::vec3::lemma_fx_mul_scale(k * k * sc);
        assert(fx_mul_spec(k * k * sc, sc) == tzdiv((k * k * sc) * sc, sc));
    };
    assert((s.radius as int) * (s.radius as int) == (m * m * sc) * sc) by (nonlinear_arith)
        requires
            s.radius == m * sc,
    ;
    assert(fx_mul_spec(s.radius as int, s.radius as int) == m * m * sc) by {
        crate::vec3::lemma_fx_mul_scale(m * m * sc);
        assert(fx_mul_spec(m * m * sc, sc) == tzdiv((m * m * sc) * sc, sc));
    };
    let c = oc.dot(oc) - fx_mul_spec(s.radius as int, s.radius as int);
    assert(c == (k * k - m * m) * sc) by (nonlinear_arith)
        requires
            c == k * k * sc - m * m * sc,
    ;

    // discriminant = m^2 (in fixed-point units)
    assert(half_b * half_b == (k * k * sc) * sc) by (nonlinear_arith)
        requires
            half_b == -(k * sc),
    ;
    assert(fx_mul_spec(half_b, half_b) == k * k * sc) by {
        crate::vec3::lemma_fx_mul_scale(k * k * sc);
    };
    assert(a * c == ((k * k - m * m) * sc) * sc) by (nonlinear_arith)
        requires
            a == sc,
            c == (k * k - m * m) * sc,
    ;
    assert(fx_mul_spec(a, c) == (k * k - m * m) * sc) by {
        crate::vec3::lemma_fx_mul_scale((k * k - m * m) * sc);
    };
    let disc = fx_mul_spec(half_b, half_b) - fx_mul_spec(a, c);
    assert(disc == m * m * sc) by (nonlinear_arith)
        requires
            disc == k * k * sc - (k * k - m * m) * sc,
    ;
    assert(disc >= 0) by (nonlinear_arith)
        requires
            disc == m * m * sc,
            m >= 1,
            sc == SCALE as int,
    ;

    // the square root of the discriminant is exactly m
    assert((m * sc) * (m * sc) == (m * m * sc) * sc) by (nonlinear_arith);
    assert(disc * sc == (m * sc) * (m * sc)) by (nonlinear_arith)
        requires
            disc == m * m * sc,
    ;
    assert(sqrt_floor((disc * sc) as nat) == m * sc) by {
        assert((m * sc) * (m * sc) < (m * sc + 1) * (m * sc + 1)) by (nonlinear_arith)
            requires
                m >= 1,
                sc == SCALE as int,
        ;
        crate::fx::lemma_sqrt_floor_unique((disc * sc) as nat, (m * sc) as nat);
    };
    let sq = sqrt_floor((disc * sc) as nat) as int;

    // the nearer root is k - m, inside the window
    assert(-half_b - sq == (k - m) * sc) by (nonlinear_arith)
        requires
            half_b == -(k * sc),
            sq == m * sc,
    ;
    assert(fx_div_spec(-half_b - sq, a) == (k - m) * sc) by {
        crate::vec3::lemma_fx_mul_scale((k - m) * sc);
        assert(((k - m) * sc) * sc == (-half_b - sq) * sc) by (nonlinear_arith)
            requires
                -half_b - sq == (k - m) * sc,
        ;
    };
    let t = fx_div_spec(-half_b - sq, a);
    assert(0 < t < T_MAX_BOUND as int) by (nonlinear_arith)
        requires
            t == (k - m) * sc,
            1 <= m < k <= 1024,
            sc == SCALE as int,
    ;

    // the hit point is center + (0, 0, m)
    let p = r.at(t);
    assert(tzdiv(t * 0, sc) == 0) by {
        vstd::arithmetic::div_mod::lemma_div_of0(sc);
        assert(t * 0 == 0) by (nonlinear_arith);
    };
    assert(tzdiv(t * -sc, sc) == -t) by {
        crate::vec3::lemma_fx_mul_scale(-t);
        assert(t * -sc == -t * sc) by (nonlinear_arith);
    };
    assert(p == (V3 { x: s.center@.x, y: s.center@.y, z: s.center@.z + m * sc })) by {
        assert(k * sc - t == m * sc) by (nonlinear_arith)
            requires
                t == (k - m) * sc,
        ;
    };

    // the outward normal is the unit +z axis
    let pc = p.sub(s.center@);
    assert(pc == (V3 { x: 0, y: 0, z: m * sc }));
    assert(fx_div_spec(0, s.radius as int) == 0) by {
        vstd::arithmetic::div_mod::lemma_div_of0(s.radius as int);
        assert(0 * sc == 0) by (nonlinear_arith);
    };
    assert(fx_div_spec(m * sc, s.radius as int) == sc) by {
        vstd::arithmetic::div_mod::lemma_div_multiples_vanish(sc, m * sc);
        assert((m * sc) * sc == (m * sc) * sc);
        assert(tzdiv((m * sc) * sc, m * sc) == ((m * sc) * sc) / (m * sc)) by (nonlinear_arith)
            requires
                m >= 1,
                sc == SCALE as int,
                tzdiv((m * sc) * sc, m * sc) == if ((m * sc) * sc >= 0) == (m * sc >= 0) {
                    iabs((m * sc) * sc) / iabs(m * sc)
                } else {
                    -(iabs((m * sc) * sc) / iabs(m * sc))
                },
    ;
    };
    let outward = V3 { x: 0, y: 0, z: sc };
    assert(outward.bounded(OUTWARD_MAX as int));

    // oriented against the ray
    assert(r.direction.dot_raw(outward) == -(sc * sc)) by (nonlinear_arith)
        requires
            r.direction == (V3 { x: 0, y: 0, z: -sc }),
            outward == (V3 { x: 0, y: 0, z: sc }),
    ;
    assert(r.direction.dot_raw(outward) < 0) by (nonlinear_arith)
        requires
            r.direction.dot_raw(outward) == -(sc * sc),
            sc == SCALE as int,
    ;

    // the squared distance from the center is exactly the squared radius
    assert(pc.dot_raw(pc) == (m * sc) * (m * sc)) by (nonlinear_arith)
        requires
            pc == (V3 { x: 0, y: 0, z: m * sc }),
    ;
    assert((m * sc) * (m * sc) == (s.radius as int) * (s.radius as int)) by (nonlinear_arith)
        requires
            s.radius == m * sc,
    ;
    let res = s.hit_spec(r, 0, T_MAX_BOUND as int);
    assert(res == s.hit_at(r, t));
    assert(res is Some);
    assert(res->Some_0.normal == outward);
    assert(res->Some_0.normal.dot_raw(r.direction) <= 0) by {
        crate::vec3::lemma_dot_raw_comm(outward, r.direction);
    };
}

} // verus!
