//! Shared numeric parameters of the render loop.

use vstd::prelude::*;

verus! {

use crate::vec3::{Vec3, V3};

/// The self-intersection bias: new rays start strictly beyond this
/// parameter, so a scattered ray never re-hits its own origin.
pub const EPSILON: i128 = 1;

/// The far limit of the ray-parameter window.
pub const T_INF: i128 = crate::fx::T_MAX_BOUND;

/// The world origin.
pub fn origin() -> (r: Vec3)
    ensures
        r@ == (V3 { x: 0, y: 0, z: 0 }),
{
    Vec3 { x: 0, y: 0, z: 0 }
}

} // verus!
