//! Axis-aligned bounding boxes and the slab intersection test.

use vstd::prelude::*;

verus! {

use crate::fx::{fx_fdiv, fx_fdiv_spec, iabs, COORD_MAX, SCALE};
use crate::ray::{Ray, ORIGIN_MAX, R3};
use crate::vec3::{Vec3, V3};

/// Bound on box corner coordinates: wider than the scene coordinate bound so
/// that boxes of translated geometry still fit.
pub const BOX_MAX: i128 = 0x100_0000_0000;

/// Mathematical model of a box: two corner vectors.
pub ghost struct B3 {
    pub minimum: V3,
    pub maximum: V3,
}

impl B3 {
    pub open spec fn wf(self) -> bool {
        &&& self.minimum.x <= self.maximum.x
        &&& self.minimum.y <= self.maximum.y
        &&& self.minimum.z <= self.maximum.z
        &&& self.minimum.bounded(BOX_MAX as int)
        &&& self.maximum.bounded(BOX_MAX as int)
    }

    /// Whether the point lies inside the box (boundary included).
    pub open spec fn contains(self, p: V3) -> bool {
        &&& self.minimum.x <= p.x <= self.maximum.x
        &&& self.minimum.y <= p.y <= self.maximum.y
        &&& self.minimum.z <= p.z <= self.maximum.z
    }

    /// The smallest box containing both operands.
    pub open spec fn union(self, o: B3) -> B3 {
        B3 {
            minimum: V3 {
                x: vstd::math::min(self.minimum.x, o.minimum.x),
                y: vstd::math::min(self.minimum.y, o.minimum.y),
                z: vstd::math::min(self.minimum.z, o.minimum.z),
            },
            maximum: V3 {
                x: vstd::math::max(self.maximum.x, o.maximum.x),
                y: vstd::math::max(self.maximum.y, o.maximum.y),
                z: vstd::math::max(self.maximum.z, o.maximum.z),
            },
        }
    }
}

/// The union lifted to absent operands: an absent side contributes nothing.
pub open spec fn union_opt(a: Option<B3>, b: Option<B3>) -> Option<B3> {
    match (a, b) {
        (Some(x), Some(y)) => Some(x.union(y)),
        (Some(x), None) => Some(x),
        (None, Some(y)) => Some(y),
        (None, None) => None,
    }
}

/// A box contains every point of each operand of a union.
pub proof fn lemma_union_contains(a: B3, b: B3, p: V3)
    ensures
        a.contains(p) ==> a.union(b).contains(p),
        b.contains(p) ==> a.union(b).contains(p),
{
}

/// An executable axis-aligned bounding box.
#[derive(Clone, Copy, Debug, PartialEq, Eq, Structural)]
pub struct AABB {
    pub minimum: Vec3,
    pub maximum: Vec3,
}

impl View for AABB {
    type V = B3;

    open spec fn view(&self) -> B3 {
        B3 { minimum: self.minimum@, maximum: self.maximum@ }
    }
}

/// The running `[t0, t1]` window of the slab test, with a miss flag that
/// sticks once the window empties.
pub ghost struct SlabWindow {
    pub t0: int,
    pub t1: int,
    pub miss: bool,
}

/// One axis of the slab test: narrow the window by the parameter interval in
/// which the ray lies between the two planes of this axis, flooring the
/// parameters so a strictly negative plane crossing never rounds up to
/// zero.  A ray parallel to the planes constrains nothing when its origin
/// lies between them and misses otherwise; an already-empty window stays a
/// miss.
pub open spec fn slab_step(w: SlabWindow, lo: int, hi: int, o: int, d: int) -> SlabWindow {
    if w.miss {
        w
    } else if d == 0 {
        SlabWindow { t0: w.t0, t1: w.t1, miss: o < lo || o > hi || w.t1 < w.t0 }
    } else {
        let ta = fx_fdiv_spec(lo - o, d);
        let tb = fx_fdiv_spec(hi - o, d);
        let en = if d < 0 {
            tb
        } else {
            ta
        };
        let ex = if d < 0 {
            ta
        } else {
            tb
        };
        let n0 = vstd::math::max(w.t0, en);
        let n1 = vstd::math::min(w.t1, ex);
        SlabWindow { t0: n0, t1: n1, miss: n1 < n0 }
    }
}

/// The slab test over all three axes.
pub open spec fn slab_spec(b: B3, r: R3, t0: int, t1: int) -> SlabWindow {
    let w0 = SlabWindow { t0, t1, miss: false };
    let wx = slab_step(w0, b.minimum.x, b.maximum.x, r.origin.x, r.direction.x);
    let wy = slab_step(wx, b.minimum.y, b.maximum.y, r.origin.y, r.direction.y);
    slab_step(wy, b.minimum.z, b.maximum.z, r.origin.z, r.direction.z)
}

impl AABB {
    pub fn new(minimum: Vec3, maximum: Vec3) -> (b: AABB)
        ensures
            b@ == (B3 { minimum: minimum@, maximum: maximum@ }),
    {
        AABB { minimum, maximum }
    }

    /// The slab test: narrows `[t_min, t_max]` axis by axis and reports
    /// whether a parameter interval survives.
    pub fn hit(&self, ray: &Ray, t_min: &mut i128, t_max: &mut i128) -> (r: bool)
        requires
            self@.wf(),
            ray@.bounded(),
        ensures
            ({
                let w = slab_spec(self@, ray@, *old(t_min) as int, *old(t_max) as int);
                &&& r == !w.miss
                &&& *final(t_min) == w.t0
                &&& *final(t_max) == w.t1
            }),
            r ==> *final(t_min) <= *final(t_max),
    {
        proof {
            let w0 = SlabWindow {
                t0: *t_min as int,
                t1: *t_max as int,
                miss: false,
            };
            let wx = slab_step(w0, self@.minimum.x, self@.maximum.x, ray@.origin.x, ray@.direction.x);
            let wy = slab_step(wx, self@.minimum.y, self@.maximum.y, ray@.origin.y, ray@.direction.y);
            lemma_step_valid(w0, self@.minimum.x, self@.maximum.x, ray@.origin.x, ray@.direction.x);
            lemma_step_valid(wx, self@.minimum.y, self@.maximum.y, ray@.origin.y, ray@.direction.y);
            lemma_step_valid(wy, self@.minimum.z, self@.maximum.z, ray@.origin.z, ray@.direction.z);
        }
        let r0 = self.hit_axis(
            self.minimum.x,
            self.maximum.x,
            ray.origin.x,
            ray.direction.x,
            t_min,
            t_max,
        );
        if !r0 {
            return false;
        }
        let r1 = self.hit_axis(
            self.minimum.y,
            self.maximum.y,
            ray.origin.y,
            ray.direction.y,
            t_min,
            t_max,
        );
        if !r1 {
            return false;
        }
        let r2 = self.hit_axis(
            self.minimum.z,
            self.maximum.z,
            ray.origin.z,
            ray.direction.z,
            t_min,
            t_max,
        );
        r2
    }

    /// One axis of the slab test.
    fn hit_axis(&self, lo: i128, hi: i128, o: i128, d: i128, t_min: &mut i128, t_max: &mut i128) -> (r:
        bool)
        requires
            iabs(lo as int) <= BOX_MAX as int,
            iabs(hi as int) <= BOX_MAX as int,
            iabs(o as int) <= ORIGIN_MAX as int,
            iabs(d as int) <= COORD_MAX as int,
        ensures
            ({
                let w0 = SlabWindow { t0: *old(t_min) as int, t1: *old(t_max) as int, miss: false };
                let w = slab_step(w0, lo as int, hi as int, o as int, d as int);
                &&& r == !w.miss
                &&& *final(t_min) == w.t0
                &&& *final(t_max) == w.t1
            }),
    {
        if d == 0 {
            return !(o < lo || o > hi || *t_max < *t_min);
        }
        let ta = fx_fdiv(lo - o, d);
        let tb = fx_fdiv(hi - o, d);
        let en = if d < 0 {
            tb
        } else {
            ta
        };
        let ex = if d < 0 {
            ta
        } else {
            tb
        };
        if en > *t_min {
            *t_min = en;
        }
        if ex < *t_max {
            *t_max = ex;
        }
        !(*t_max < *t_min)
    }
}

/// The box around both operands, either of which may be absent.
pub fn surrounding_box(box0: Option<AABB>, box1: Option<AABB>) -> (r: Option<AABB>)
    ensures
        ({
            let expected = union_opt(as_b3(box0), as_b3(box1));
            match (r, expected) {
                (Some(rb), Some(eb)) => rb@ == eb,
                (None, None) => true,
                _ => false,
            }
        }),
{
    match (box0, box1) {
        (Some(b), None) => Some(AABB::new(b.minimum, b.maximum)),
        (None, Some(b)) => Some(AABB::new(b.minimum, b.maximum)),
        (Some(b0), Some(b1)) => {
            let small = Vec3 {
                x: imin(b0.minimum.x, b1.minimum.x),
                y: imin(b0.minimum.y, b1.minimum.y),
                z: imin(b0.minimum.z, b1.minimum.z),
            };
            let big = Vec3 {
                x: imax(b0.maximum.x, b1.maximum.x),
                y: imax(b0.maximum.y, b1.maximum.y),
                z: imax(b0.maximum.z, b1.maximum.z),
            };
            Some(AABB::new(small, big))
        },
        (None, None) => None,
    }
}

/// The view of an optional box.
pub open spec fn as_b3(o: Option<AABB>) -> Option<B3> {
    match o {
        Some(b) => Some(b@),
        None => None,
    }
}

fn imin(a: i128, b: i128) -> (r: i128)
    ensures
        r == vstd::math::min(a as int, b as int),
{
    if a <= b {
        a
    } else {
        b
    }
}

fn imax(a: i128, b: i128) -> (r: i128)
    ensures
        r == vstd::math::max(a as int, b as int),
{
    if a >= b {
        a
    } else {
        b
    }
}

/// The union of the bounding boxes of a list of spheres.
pub open spec fn spheres_bbox(s: Seq<crate::primitives::Sphere>) -> Option<B3>
    decreases s.len(),
{
    if s.len() == 0 {
        None
    } else {
        union_opt(spheres_bbox(s.drop_last()), Some(s.last().bbox_spec()))
    }
}

/// The box around every sphere of the list; absent for an empty list.
pub fn bounding_box(world: &Vec<crate::primitives::Sphere>) -> (r: Option<AABB>)
    requires
        forall|i: int| 0 <= i < world@.len() ==> (#[trigger] world@[i]).wf(),
    ensures
        as_b3(r) == spheres_bbox(world@),
{
    let mut output_box: Option<AABB> = None;
    let mut i: usize = 0;
    proof {
        assert(world@.take(0) =~= Seq::<crate::primitives::Sphere>::empty());
    }
    while i < world.len()
        invariant
            forall|k: int| 0 <= k < world@.len() ==> (#[trigger] world@[k]).wf(),
            i <= world.len(),
            as_b3(output_box) == spheres_bbox(world@.take(i as int)),
        decreases world.len() - i,
    {
        proof {
            assert(world@[i as int].wf());
        }
        let sphere_box = world[i].bounding_box();
        output_box = surrounding_box(output_box, sphere_box);
        proof {
            assert(world@.take(i + 1).drop_last() =~= world@.take(i as int));
            assert(world@.take(i + 1).last() == world@[i as int]);
        }
        i = i + 1;
    }
    proof {
        assert(world@.take(world@.len() as int) =~= world@);
    }
    output_box
}

/// A ray that starts outside the box on some axis, with any window of
/// nonnegative parameters, and does not move toward the box on that axis,
/// misses it: the slab test reports no intersection.
pub proof fn lemma_slab_away(b: B3, r: R3, t0: int, t1: int)
    requires
        b.wf(),
        0 <= t0 <= t1,
        ((r.origin.x < b.minimum.x && r.direction.x <= 0) || (r.origin.x > b.maximum.x
            && r.direction.x >= 0)) || ((r.origin.y < b.minimum.y && r.direction.y <= 0) || (
        r.origin.y > b.maximum.y && r.direction.y >= 0)) || ((r.origin.z < b.minimum.z
            && r.direction.z <= 0) || (r.origin.z > b.maximum.z && r.direction.z >= 0)),
    ensures
        slab_spec(b, r, t0, t1).miss,
{
    let w0 = SlabWindow { t0, t1, miss: false };
    let wx = slab_step(w0, b.minimum.x, b.maximum.x, r.origin.x, r.direction.x);
    let wy = slab_step(wx, b.minimum.y, b.maximum.y, r.origin.y, r.direction.y);
    lemma_step_window(w0, b.minimum.x, b.maximum.x, r.origin.x, r.direction.x);
    lemma_step_window(wx, b.minimum.y, b.maximum.y, r.origin.y, r.direction.y);
    lemma_step_window(wy, b.minimum.z, b.maximum.z, r.origin.z, r.direction.z);
    if (r.origin.x < b.minimum.x && r.direction.x <= 0) || (r.origin.x > b.maximum.x
        && r.direction.x >= 0) {
        lemma_step_away(w0, b.minimum.x, b.maximum.x, r.origin.x, r.direction.x);
    } else if (r.origin.y < b.minimum.y && r.direction.y <= 0) || (r.origin.y > b.maximum.y
        && r.direction.y >= 0) {
        lemma_step_away(wx, b.minimum.y, b.maximum.y, r.origin.y, r.direction.y);
    } else {
        lemma_step_away(wy, b.minimum.z, b.maximum.z, r.origin.z, r.direction.z);
    }
}

/// A ray travelling along the x axis from before the box, at a height and
/// depth strictly inside it, passes through the box: the slab test reports
/// an intersection for the full parameter window.
pub proof fn lemma_slab_through(b: B3, r: R3, t1: int)
    requires
        b.wf(),
        r.direction == (crate::vec3::V3 { x: SCALE as int, y: 0, z: 0 }),
        r.origin.x < b.minimum.x,
        b.minimum.x - r.origin.x <= t1,
        b.maximum.x - r.origin.x <= t1,
        b.minimum.y <= r.origin.y <= b.maximum.y,
        b.minimum.z <= r.origin.z <= b.maximum.z,
    ensures
        !slab_spec(b, r, 0, t1).miss,
{
    let w0 = SlabWindow { t0: 0, t1, miss: false };
    let ta = fx_fdiv_spec(b.minimum.x - r.origin.x, SCALE as int);
    let tb = fx_fdiv_spec(b.maximum.x - r.origin.x, SCALE as int);
    crate::fx::lemma_fdiv_exact(b.minimum.x - r.origin.x);
    crate::fx::lemma_fdiv_exact(b.maximum.x - r.origin.x);
    assert(ta == b.minimum.x - r.origin.x);
    assert(tb == b.maximum.x - r.origin.x);
    let wx = slab_step(w0, b.minimum.x, b.maximum.x, r.origin.x, r.direction.x);
    assert(!wx.miss);
    let wy = slab_step(wx, b.minimum.y, b.maximum.y, r.origin.y, r.direction.y);
    assert(!wy.miss);
}

/// A slab step preserves the lower window bound, and a miss sticks.
proof fn lemma_step_window(w: SlabWindow, lo: int, hi: int, o: int, d: int)
    ensures
        slab_step(w, lo, hi, o, d).t0 >= w.t0,
        w.miss ==> slab_step(w, lo, hi, o, d).miss,
{
}

/// A step that does not miss leaves a valid window.
proof fn lemma_step_valid(w: SlabWindow, lo: int, hi: int, o: int, d: int)
    ensures
        !slab_step(w, lo, hi, o, d).miss ==> slab_step(w, lo, hi, o, d).t0 <= slab_step(
            w,
            lo,
            hi,
            o,
            d,
        ).t1,
{
}

/// One axis of the away condition: the step reports a miss.
proof fn lemma_step_away(w: SlabWindow, lo: int, hi: int, o: int, d: int)
    requires
        lo <= hi,
        (o < lo && d <= 0) || (o > hi && d >= 0),
        !w.miss ==> 0 <= w.t0 <= w.t1,
    ensures
        slab_step(w, lo, hi, o, d).miss,
{
    if w.miss {
    } else if d == 0 {
    } else {
        let ta = fx_fdiv_spec(lo - o, d);
        let tb = fx_fdiv_spec(hi - o, d);
        if o < lo && d < 0 {
            assert((lo - o) * (SCALE as int) >= 1) by (nonlinear_arith)
                requires
                    lo - o >= 1,
            ;
            crate::fx::lemma_fdiv_strictly_negative((lo - o) * (SCALE as int), d);
            assert(ta <= -1);
        } else {
            assert(o > hi && d > 0);
            assert((hi - o) * (SCALE as int) <= -1) by (nonlinear_arith)
                requires
                    hi - o <= -1,
            ;
            crate::fx::lemma_fdiv_strictly_negative((hi - o) * (SCALE as int), d);
            assert(tb <= -1);
        }
    }
}

} // verus!
