//! Rays and intersection records.

use vstd::prelude::*;

verus! {

use crate::fx::{iabs, tzdiv, COORD_MAX, SCALE, T_MAX_BOUND};
use crate::material::Material;
use crate::vec3::{V3, Vec3};

/// Mathematical model of a ray.
pub ghost struct R3 {
    pub origin: V3,
    pub direction: V3,
}

impl R3 {
    /// The point `origin + t * direction` (fixed-point rounding).
    pub open spec fn at(self, t: int) -> V3 {
        V3 {
            x: self.origin.x + tzdiv(t * self.direction.x, SCALE as int),
            y: self.origin.y + tzdiv(t * self.direction.y, SCALE as int),
            z: self.origin.z + tzdiv(t * self.direction.z, SCALE as int),
        }
    }

    /// The origin stays within the (wider) origin bound and the direction
    /// within the scene coordinate bound.
    pub open spec fn bounded(self) -> bool {
        self.origin.bounded(ORIGIN_MAX as int) && self.direction.bounded(COORD_MAX as int)
    }
}

/// Bound on ray origins: wider than the scene coordinate bound, so that rays
/// moved into the local frame of translated geometry stay in range.
pub const ORIGIN_MAX: i128 = 0x10_0000_0000;

/// A ray parameter within `T_MAX_BOUND`, evaluated on a bounded ray, lands
/// within `POS_MAX`.
pub proof fn lemma_at_bounded(r: R3, t: int)
    requires
        r.bounded(),
        iabs(t) <= T_MAX_BOUND as int,
    ensures
        r.at(t).bounded(POS_MAX as int),
        iabs(t) * r.direction.norm_inf() < i128::MAX,
{
    crate::vec3::lemma_bounded_norm_inf(r.direction, COORD_MAX as int);
    crate::fx::lemma_abs_mul_bound(t, r.direction.x, T_MAX_BOUND as int, COORD_MAX as int);
    crate::fx::lemma_abs_mul_bound(t, r.direction.y, T_MAX_BOUND as int, COORD_MAX as int);
    crate::fx::lemma_abs_mul_bound(t, r.direction.z, T_MAX_BOUND as int, COORD_MAX as int);
    crate::vec3::lemma_mul_le(
        iabs(t),
        r.direction.norm_inf(),
        T_MAX_BOUND as int,
        COORD_MAX as int,
    );
    crate::fx::lemma_tzdiv_le_bound(
        t * r.direction.x,
        SCALE as int,
        (T_MAX_BOUND as int) * (COORD_MAX as int),
    );
    crate::fx::lemma_tzdiv_le_bound(
        t * r.direction.y,
        SCALE as int,
        (T_MAX_BOUND as int) * (COORD_MAX as int),
    );
    crate::fx::lemma_tzdiv_le_bound(
        t * r.direction.z,
        SCALE as int,
        (T_MAX_BOUND as int) * (COORD_MAX as int),
    );
}

/// An executable ray: origin plus direction, not necessarily unit length.
#[derive(Clone, Copy, Debug, PartialEq, Eq, Structural)]
pub struct Ray {
    pub origin: Vec3,
    pub direction: Vec3,
}

impl View for Ray {
    type V = R3;

    open spec fn view(&self) -> R3 {
        R3 { origin: self.origin@, direction: self.direction@ }
    }
}

impl Ray {
    pub fn new(origin: Vec3, direction: Vec3) -> (r: Ray)
        ensures
            r@ == (R3 { origin: origin@, direction: direction@ }),
    {
        Ray { origin, direction }
    }

    /// The point at parameter `t` along the ray.
    pub fn at(&self, t: i128) -> (p: Vec3)
        requires
            iabs(t as int) * self@.direction.norm_inf() < i128::MAX,
            iabs(self@.origin.x + tzdiv(t * self@.direction.x, SCALE as int)) <= i128::MAX,
            iabs(self@.origin.y + tzdiv(t * self@.direction.y, SCALE as int)) <= i128::MAX,
            iabs(self@.origin.z + tzdiv(t * self@.direction.z, SCALE as int)) <= i128::MAX,
        ensures
            p@ == self@.at(t as int),
    {
        proof {
            crate::vec3::lemma_norm_inf_mul(self@.direction, t as int);
            assert(iabs(t * self@.direction.x) == iabs(self@.direction.x * t)) by (nonlinear_arith);
            assert(iabs(t * self@.direction.y) == iabs(self@.direction.y * t)) by (nonlinear_arith);
            assert(iabs(t * self@.direction.z) == iabs(self@.direction.z * t)) by (nonlinear_arith);
        }
        let px = self.origin.x + crate::fx::tz_div(t * self.direction.x, SCALE);
        let py = self.origin.y + crate::fx::tz_div(t * self.direction.y, SCALE);
        let pz = self.origin.z + crate::fx::tz_div(t * self.direction.z, SCALE);
        Vec3 { x: px, y: py, z: pz }
    }
}

/// Bound on hit positions: a hit within the ray-parameter window of a bounded
/// ray stays within this magnitude.
pub const POS_MAX: i128 = 0x200_0000_0000_0000_0000;

/// Bound on the components of an oriented unit-length surface normal,
/// allowing for fixed-point rounding through the geometric transforms.
pub const NORMAL_MAX: i128 = 0x40000;

/// Mathematical model of an intersection record.
pub ghost struct H3 {
    pub position: V3,
    pub normal: V3,
    pub t: int,
    pub material: Material,
    pub front_face: bool,
    pub incoming: V3,
}

/// The result of a successful ray-primitive intersection.
#[derive(Clone, Copy, Debug)]
pub struct HitRecord {
    pub position: Vec3,
    pub normal: Vec3,
    pub t: i128,
    pub material: Material,
    pub front_face: bool,
    pub incoming: Vec3,
}

impl View for HitRecord {
    type V = H3;

    open spec fn view(&self) -> H3 {
        H3 {
            position: self.position@,
            normal: self.normal@,
            t: self.t as int,
            material: self.material,
            front_face: self.front_face,
            incoming: self.incoming@,
        }
    }
}

/// The view of an optional intersection record.
pub open spec fn as_h3(o: Option<HitRecord>) -> Option<H3> {
    match o {
        Some(h) => Some(h@),
        None => None,
    }
}

impl HitRecord {
    /// Every intersection record keeps its normal oriented against the ray it
    /// was tested with, near unit length (its squared norm within a factor
    /// of four of one), and all its geometric fields within range.
    pub open spec fn wf(self) -> bool {
        &&& self.normal@.dot_raw(self.incoming@) <= 0
        &&& self.normal@.bounded(NORMAL_MAX as int)
        &&& (SCALE as int) * (SCALE as int) / 4 <= self.normal@.dot_raw(self.normal@) <= 4 * ((
        SCALE as int) * (SCALE as int))
        &&& self.position@.bounded(POS_MAX as int)
        &&& self.incoming@.bounded(COORD_MAX as int)
        &&& iabs(self.t as int) <= T_MAX_BOUND as int
    }
}

} // verus!
