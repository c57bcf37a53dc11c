//! The camera: an orthonormal viewing basis and ray generation.

use vstd::prelude::*;

verus! {

use crate::fx::{fx_mul, fx_mul_spec, iabs, SCALE};
use crate::ray::{Ray, R3};
use crate::vec3::{Vec3, V3};

/// Bound on camera basis vectors, chosen so that every generated ray stays
/// within the scene coordinate bound.
pub const CAM_MAX: i128 = 0x1000_0000;

/// Bound on the half extents of the viewport.
pub const VIEW_MAX: i128 = 0x100_0000;

pub ghost struct CameraModel {
    pub origin: V3,
    pub horizontal: V3,
    pub vertical: V3,
    pub lower_left_corner: V3,
}

/// The parameters a camera is built from.
#[derive(Clone, Copy, Debug)]
pub struct CameraParams {
    pub look_from: Vec3,
    pub look_at: Vec3,
    pub vup: Vec3,
    pub half_width: i128,
    pub half_height: i128,
}

/// An executable camera.
#[derive(Clone, Copy, Debug)]
pub struct Camera {
    pub origin: Vec3,
    pub horizontal: Vec3,
    pub vertical: Vec3,
    pub focal_length: i128,
    pub lower_left_corner: Vec3,
}

impl View for Camera {
    type V = CameraModel;

    open spec fn view(&self) -> CameraModel {
        CameraModel {
            origin: self.origin@,
            horizontal: self.horizontal@,
            vertical: self.vertical@,
            lower_left_corner: self.lower_left_corner@,
        }
    }
}

impl Camera {
    pub open spec fn wf(self) -> bool {
        &&& self.origin@.bounded(CAM_MAX as int)
        &&& self.horizontal@.bounded(CAM_MAX as int)
        &&& self.vertical@.bounded(CAM_MAX as int)
        &&& self.lower_left_corner@.bounded(CAM_MAX as int)
    }

    /// The orthonormal viewing basis: `w` back along the gaze, `u` across,
    /// `v` up, with the viewport corner and extents derived from them.
    pub open spec fn basis_spec(
        look_from: V3,
        look_at: V3,
        vup: V3,
        half_width: int,
        half_height: int,
    ) -> CameraModel {
        let w = look_from.sub(look_at).unit();
        let u = vup.cross(w).unit();
        let v = w.cross(u);
        CameraModel {
            origin: look_from,
            horizontal: u.smul(2 * half_width),
            vertical: v.smul(2 * half_height),
            lower_left_corner: look_from.sub(u.smul(half_width)).sub(v.smul(half_height)).sub(w),
        }
    }

    /// The inputs admit no basis: a gaze or cross product that rounds to
    /// zero.
    pub open spec fn degenerate_spec(look_from: V3, look_at: V3, vup: V3) -> bool {
        let gaze = look_from.sub(look_at);
        gaze.dot_raw(gaze) < 1 || {
            let w = gaze.unit();
            let cu = vup.cross(w);
            cu.dot_raw(cu) < 1
        }
    }

    /// Builds the camera basis from eye position, look target, the up
    /// direction, and the half extents of the viewport (the tangent-derived
    /// half width and half height, as fixed-point values).
    ///
    /// Degenerate inputs (a zero view direction or an up vector parallel to
    /// it) cannot produce a basis and yield nothing.
    #[verifier::rlimit(60)]
    pub fn new(look_from: Vec3, look_at: Vec3, vup: Vec3, half_width: i128, half_height: i128) -> (r:
        Option<Camera>)
        requires
            look_from@.bounded(0x100_0000),
            look_at@.bounded(0x100_0000),
            vup@.bounded(0x100_0000),
            0 <= half_width <= VIEW_MAX,
            0 <= half_height <= VIEW_MAX,
        ensures
            r is None <==> Camera::degenerate_spec(look_from@, look_at@, vup@),
            r matches Some(c) ==> c.wf() && c@ == Camera::basis_spec(
                look_from@,
                look_at@,
                vup@,
                half_width as int,
                half_height as int,
            ) && c.focal_length == look_from@.sub(look_at@).norm(),
    {
        proof {
            crate::vec3::lemma_bounded_norm_inf(look_from@, 0x100_0000);
            crate::vec3::lemma_bounded_norm_inf(look_at@, 0x100_0000);
        }
        let gaze = look_from.sub(&look_at);
        proof {
            crate::vec3::lemma_bounded_norm_inf(gaze@, 0x200_0000);
            crate::vec3::lemma_mul_le(gaze@.norm_inf(), gaze@.norm_inf(), 0x200_0000, 0x200_0000);
            crate::vec3::lemma_mul_le(gaze@.norm_inf(), SCALE as int, 0x200_0000, SCALE as int);
        }
        if gaze.dot_raw(&gaze) < 1 {
            return None;
        }
        let w = gaze.unit();
        proof {
            crate::vec3::lemma_cross_bound(vup@, w@, 0x100_0000, SCALE as int);
        }
        let cu = vup.cross(&w);
        proof {
            crate::vec3::lemma_bounded_norm_inf(cu@, 0x200_0000);
            crate::vec3::lemma_mul_le(cu@.norm_inf(), cu@.norm_inf(), 0x200_0000, 0x200_0000);
            crate::vec3::lemma_mul_le(cu@.norm_inf(), SCALE as int, 0x200_0000, SCALE as int);
        }
        if cu.dot_raw(&cu) < 1 {
            return None;
        }
        let u = cu.unit();
        proof {
            crate::vec3::lemma_cross_bound(w@, u@, SCALE as int, SCALE as int);
        }
        let v = w.cross(&u);
        proof {
            crate::vec3::lemma_smul_bound(u@, half_width as int, SCALE as int, VIEW_MAX as int);
            crate::vec3::lemma_smul_bound(v@, half_height as int, 2 * SCALE as int, VIEW_MAX as int);
            crate::vec3::lemma_smul_bound(
                u@,
                2 * (half_width as int),
                SCALE as int,
                2 * VIEW_MAX as int,
            );
            crate::vec3::lemma_smul_bound(
                v@,
                2 * (half_height as int),
                2 * SCALE as int,
                2 * VIEW_MAX as int,
            );
        }
        let uw = u.smul(half_width);
        let vh = v.smul(half_height);
        let lower_left_corner = look_from.sub(&uw).sub(&vh).sub(&w);
        let horizontal = u.smul(2 * half_width);
        let vertical = v.smul(2 * half_height);
        let focal_length = gaze.norm();
        Some(Camera { origin: look_from, horizontal, vertical, focal_length, lower_left_corner })
    }

    /// The ray through viewport coordinates `(u, v)`, each in `[0, 1]` as a
    /// fixed-point fraction.
    pub fn get_ray(&self, u: i128, v: i128) -> (r: Ray)
        requires
            self.wf(),
            0 <= u <= SCALE,
            0 <= v <= SCALE,
        ensures
            r@ == self.ray_spec(u as int, v as int),
            r@.bounded(),
    {
        proof {
            crate::vec3::lemma_smul_bound(self.horizontal@, u as int, CAM_MAX as int, SCALE as int);
            crate::vec3::lemma_smul_bound(self.vertical@, v as int, CAM_MAX as int, SCALE as int);
        }
        let hu = self.horizontal.smul(u);
        let vv = self.vertical.smul(v);
        let direction = self.lower_left_corner.add(&hu).add(&vv).sub(&self.origin);
        Ray { origin: self.origin, direction }
    }

    /// The generated ray: origin at the eye, direction from the lower-left
    /// corner across the viewport.
    pub open spec fn ray_spec(self, u: int, v: int) -> R3 {
        R3 {
            origin: self.origin@,
            direction: self.lower_left_corner@.add(self.horizontal@.smul(u)).add(
                self.vertical@.smul(v),
            ).sub(self.origin@),
        }
    }
}

} // verus!
