//! The scene description handed to the renderer.

use vstd::prelude::*;

verus! {

use crate::camera::Camera;
use crate::color::Color;
use crate::material::EMIT_MAX;
use crate::primitives::Primitive;

/// Every primitive in the list is well-formed.
pub open spec fn objects_wf(s: Seq<Primitive>) -> bool {
    forall|i: int| 0 <= i < s.len() ==> #[trigger] s[i].wf()
}

/// A scene: image dimensions, sampling parameters, the camera, the
/// primitives, and the background radiance for rays that miss everything.
pub struct Config {
    pub width: usize,
    pub height: usize,
    pub samples_per_pixel: usize,
    pub camera: Camera,
    pub objects: Vec<Primitive>,
    pub depth: usize,
    pub background: Color,
}

impl Config {
    /// Dimensions and sampling parameters within the ranges the fixed-point
    /// pipeline supports, a well-formed camera and object list, and a
    /// physical background color.
    pub open spec fn wf(self) -> bool {
        &&& 1 <= self.width <= 4096
        &&& 1 <= self.height <= 4096
        &&& 1 <= self.samples_per_pixel <= 0x10000
        &&& 1 <= self.depth <= 1024
        &&& self.camera.wf()
        &&& objects_wf(self.objects@)
        &&& self.background@.nonneg()
        &&& self.background@.bounded(EMIT_MAX as int)
    }

    /// Decides the whole scene invariant at run time, so that unverified
    /// callers can establish the renderer's precondition before starting.
    pub fn check_wf(&self) -> (r: bool)
        ensures
            r == self.wf(),
    {
        let dims = 1 <= self.width && self.width <= 4096 && 1 <= self.height && self.height <= 4096
            && 1 <= self.samples_per_pixel && self.samples_per_pixel <= 0x10000 && 1 <= self.depth
            && self.depth <= 1024;
        if !dims {
            return false;
        }
        let cam = self.camera.origin.is_bounded(crate::camera::CAM_MAX)
            && self.camera.horizontal.is_bounded(crate::camera::CAM_MAX)
            && self.camera.vertical.is_bounded(crate::camera::CAM_MAX)
            && self.camera.lower_left_corner.is_bounded(crate::camera::CAM_MAX);
        if !cam {
            return false;
        }
        let bg = 0 <= self.background.r && self.background.r <= EMIT_MAX && 0 <= self.background.g
            && self.background.g <= EMIT_MAX && 0 <= self.background.b && self.background.b
            <= EMIT_MAX;
        if !bg {
            return false;
        }
        let mut i: usize = 0;
        while i < self.objects.len()
            invariant
                i <= self.objects@.len(),
                forall|k: int| 0 <= k < i ==> (#[trigger] self.objects@[k]).wf(),
            decreases self.objects@.len() - i,
        {
            if !self.objects[i].check_wf() {
                return false;
            }
            i = i + 1;
        }
        true
    }
}

} // verus!
