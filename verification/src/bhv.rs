//! A bounding volume hierarchy: a binary tree over primitives' bounding
//! boxes that lets traversal skip subtrees whose box the ray misses.
//!
//! Every internal node's box is exactly the union of its children's boxes —
//! that invariant is part of well-formedness and established by
//! construction — so a point inside any leaf's box is inside the box of
//! every node above it, and traversal from the root can never prune it.

use vstd::prelude::*;

verus! {

use crate::aabb::{surrounding_box, B3, AABB};
use crate::config::objects_wf;
use crate::fx::{iabs, T_MAX_BOUND};
use crate::material::Scatterable;
use crate::primitives::Primitive;
use crate::ray::{HitRecord, Ray};
use vstd::seq_lib::group_to_multiset_ensures;
use vstd::seq_lib::lemma_multiset_commutative;
use vstd::multiset::Multiset;

/// A node of the hierarchy: a leaf primitive or an internal subtree.
pub enum Hittable {
    Primitive(Box<Primitive>),
    BHV(Box<BHV>),
}

/// An internal node: two children and the cached union of their boxes.
pub struct BHV {
    pub bounding_box: AABB,
    pub left: Box<Hittable>,
    pub right: Box<Hittable>,
}

impl Hittable {
    /// A leaf holds a well-formed primitive with a defined bounding box; a
    /// subtree is itself well-formed.
    pub open spec fn wf(self) -> bool
        decreases self,
    {
        match self {
            Hittable::Primitive(p) => p.wf() && p.bbox_spec() is Some,
            Hittable::BHV(b) => b.wf(),
        }
    }

    /// The box covering everything below this node.
    pub open spec fn bbox(self) -> B3
        decreases self,
    {
        match self {
            Hittable::Primitive(p) => p.bbox_spec()->Some_0,
            Hittable::BHV(b) => b.bounding_box@,
        }
    }

    /// The primitives stored at the leaves below this node, left to right.
    pub open spec fn elems(self) -> Seq<Primitive>
        decreases self,
    {
        match self {
            Hittable::Primitive(p) => seq![*p],
            Hittable::BHV(b) => b.left.elems() + b.right.elems(),
        }
    }

    /// Whether `leaf` is a leaf of the tree under this node.
    pub open spec fn has_leaf(self, leaf: Primitive) -> bool
        decreases self,
    {
        match self {
            Hittable::Primitive(p) => *p == leaf,
            Hittable::BHV(b) => b.left.has_leaf(leaf) || b.right.has_leaf(leaf),
        }
    }

    pub fn bounding_box(&self) -> (r: Option<AABB>)
        requires
            self.wf(),
        ensures
            r matches Some(b) && b@ == self.bbox() && b@.wf(),
        decreases *self,
    {
        match self {
            Hittable::Primitive(p) => p.bounding_box(),
            Hittable::BHV(b) => b.bounding_box(),
        }
    }

    /// The exact traversal: a leaf defers to its primitive's intersection
    /// routine.
    pub open spec fn hit_spec(self, r: crate::ray::R3, t_min: int, t_max: int) -> Option<
        crate::ray::H3,
    >
        decreases self,
    {
        match self {
            Hittable::Primitive(p) => p.hit_spec(r, t_min, t_max),
            Hittable::BHV(b) => b.hit_spec(r, t_min, t_max),
        }
    }

    /// The returned record, if any, is the intersection of one of the
    /// tree's primitives, searched below some admissible upper bound.
    pub open spec fn hit_from_leaf(self, ray: Ray, t_min: int, t_max: int, res: Option<
        HitRecord,
    >) -> bool {
        res matches Some(h) ==> exists|p: Primitive, w: int|
            {
                &&& #[trigger] self.has_leaf(p)
                &&& t_min <= w <= t_max
                &&& crate::ray::as_h3(res) == #[trigger] p.hit_spec(ray@, t_min, w)
            }
    }

    /// The closest qualifying hit below this node, pruned by box tests.
    pub fn hit(&self, ray: &Ray, t_min: i128, t_max: i128) -> (res: Option<HitRecord>)
        requires
            self.wf(),
            ray@.bounded(),
            iabs(t_min as int) <= T_MAX_BOUND as int,
            iabs(t_max as int) <= T_MAX_BOUND as int,
        ensures
            crate::ray::as_h3(res) == self.hit_spec(ray@, t_min as int, t_max as int),
            res matches Some(h) ==> h.wf() && t_min <= h.t <= t_max && h.material.wf(),
            self.hit_from_leaf(*ray, t_min as int, t_max as int, res),
        decreases *self,
    {
        match self {
            Hittable::Primitive(p) => {
                let res = p.hit(ray, t_min, t_max);
                proof {
                    if res is Some {
                        assert(self.has_leaf(**p) && t_min as int <= t_max as int <= t_max as int
                            && crate::ray::as_h3(res) == (**p).hit_spec(
                            ray@,
                            t_min as int,
                            t_max as int,
                        ));
                    }
                }
                res
            },
            Hittable::BHV(b) => {
                let res = b.hit(ray, t_min, t_max);
                proof {
                    if res is Some {
                        let (p, w) = choose|p: Primitive, w: int|
                            {
                                &&& #[trigger] b.has_leaf(p)
                                &&& t_min as int <= w <= t_max as int
                                &&& crate::ray::as_h3(res) == #[trigger] p.hit_spec(
                                    ray@,
                                    t_min as int,
                                    w,
                                )
                            };
                        assert(self.has_leaf(p));
                    }
                }
                res
            },
        }
    }
}

impl BHV {
    /// The construction invariant: each child is well-formed and the node's
    /// box is the union of its children's boxes.
    pub open spec fn wf(self) -> bool
        decreases self,
    {
        &&& self.left.wf()
        &&& self.right.wf()
        &&& self.bounding_box@ == self.left.bbox().union(self.right.bbox())
        &&& self.bounding_box@.wf()
    }

    pub open spec fn has_leaf(self, leaf: Primitive) -> bool {
        self.left.has_leaf(leaf) || self.right.has_leaf(leaf)
    }

    pub fn bounding_box(&self) -> (r: Option<AABB>)
        requires
            self.wf(),
        ensures
            r matches Some(b) && b@ == self.bounding_box@ && b@.wf(),
    {
        Some(self.bounding_box)
    }

    /// The exact traversal: nothing when the ray misses the node's box,
    /// else the nearer of the two children's hits, the first narrowing the
    /// window of the second.
    pub open spec fn hit_spec(self, r: crate::ray::R3, t_min: int, t_max: int) -> Option<
        crate::ray::H3,
    >
        decreases self,
    {
        let w = crate::aabb::slab_spec(self.bounding_box@, r, t_min, t_max);
        if w.miss {
            None
        } else {
            let lh = self.left.hit_spec(r, t_min, t_max);
            let rh = self.right.hit_spec(r, t_min, crate::primitives::cur_max(lh, t_max));
            crate::primitives::closer(lh, rh)
        }
    }

    /// As on a single node: the record, if any, comes from one of the
    /// tree's primitives.
    pub open spec fn hit_from_leaf(self, ray: Ray, t_min: int, t_max: int, res: Option<
        HitRecord,
    >) -> bool {
        res matches Some(h) ==> exists|p: Primitive, w: int|
            {
                &&& #[trigger] self.has_leaf(p)
                &&& t_min <= w <= t_max
                &&& crate::ray::as_h3(res) == #[trigger] p.hit_spec(ray@, t_min, w)
            }
    }

    /// The closest qualifying hit in the tree: if the ray misses the node's
    /// box there is nothing to test below, else the nearer of the two
    /// children's hits, the first narrowing the window of the second.
    pub fn hit(&self, ray: &Ray, t_min: i128, t_max: i128) -> (res: Option<HitRecord>)
        requires
            self.wf(),
            ray@.bounded(),
            iabs(t_min as int) <= T_MAX_BOUND as int,
            iabs(t_max as int) <= T_MAX_BOUND as int,
        ensures
            crate::ray::as_h3(res) == self.hit_spec(ray@, t_min as int, t_max as int),
            res matches Some(h) ==> h.wf() && t_min <= h.t <= t_max && h.material.wf(),
            self.hit_from_leaf(*ray, t_min as int, t_max as int, res),
        decreases *self,
    {
        let mut w0 = t_min;
        let mut w1 = t_max;
        if !self.bounding_box.hit(ray, &mut w0, &mut w1) {
            return None;
        }
        let left_hit = self.left.hit(ray, t_min, t_max);
        let narrowed = match &left_hit {
            Some(h) => h.t,
            None => t_max,
        };
        let right_hit = self.right.hit(ray, t_min, narrowed);
        let res = match right_hit {
            Some(h) => Some(h),
            None => left_hit,
        };
        proof {
            if res is Some {
                if right_hit is Some {
                    let (p, w) = choose|p: Primitive, w: int|
                        {
                            &&& #[trigger] self.right.has_leaf(p)
                            &&& t_min as int <= w <= narrowed as int
                            &&& crate::ray::as_h3(right_hit) == #[trigger] p.hit_spec(
                                ray@,
                                t_min as int,
                                w,
                            )
                        };
                    assert(self.has_leaf(p));
                    assert(t_min as int <= w <= t_max as int && crate::ray::as_h3(res)
                        == p.hit_spec(ray@, t_min as int, w));
                } else {
                    let (p, w) = choose|p: Primitive, w: int|
                        {
                            &&& #[trigger] self.left.has_leaf(p)
                            &&& t_min as int <= w <= t_max as int
                            &&& crate::ray::as_h3(left_hit) == #[trigger] p.hit_spec(
                                ray@,
                                t_min as int,
                                w,
                            )
                        };
                    assert(self.has_leaf(p));
                    assert(t_min as int <= w <= t_max as int && crate::ray::as_h3(res)
                        == p.hit_spec(ray@, t_min as int, w));
                }
            }
        }
        res
    }

    /// Builds the hierarchy over the primitives that have bounding boxes,
    /// ordering along a randomly chosen axis and splitting at the midpoint;
    /// primitives without a box come back in the second component, for the
    /// unpruned linear scan.  A build demands at least one primitive; with
    /// no boxed primitive there is no tree.
    pub fn new(world: Vec<Primitive>, rng: &mut rand::rngs::StdRng) -> (r: (
        Option<Hittable>,
        Vec<Primitive>,
    ))
        requires
            objects_wf(world@),
            world@.len() >= 1,
        ensures
            r.0 matches Some(t) ==> t.wf() && t.elems().to_multiset().add(r.1@.to_multiset())
                == world@.to_multiset(),
            r.0 is None ==> r.1@.to_multiset() == world@.to_multiset(),
            objects_wf(r.1@),
    {
        let ghost orig = world@;
        let mut boxed: Vec<Primitive> = Vec::new();
        let mut unboxed: Vec<Primitive> = Vec::new();
        let mut world = world;
        proof {
            broadcast use group_to_multiset_ensures;

            assert(boxed@.to_multiset().add(unboxed@.to_multiset()).add(world@.to_multiset())
                =~= orig.to_multiset());
        }
        while world.len() > 0
            invariant
                objects_wf(world@),
                objects_wf(boxed@),
                objects_wf(unboxed@),
                all_boxed(boxed@),
                boxed@.to_multiset().add(unboxed@.to_multiset()).add(world@.to_multiset())
                    == orig.to_multiset(),
            decreases world.len(),
        {
            proof {
                assert(world@[world@.len() - 1].wf());
            }
            let ghost pre_world = world@;
            let ghost pre_boxed = boxed@;
            let ghost pre_unboxed = unboxed@;
            let p = world.pop().unwrap();
            proof {
                broadcast use group_to_multiset_ensures;

                assert(pre_world.contains(p)) by {
                    assert(pre_world[pre_world.len() - 1] == p);
                };
                assert(pre_world.drop_last() =~= pre_world.remove(pre_world.len() - 1));
                assert(world@.to_multiset() =~= pre_world.to_multiset().remove(p));
            }
            let has_box = p.bounding_box();
            match has_box {
                Some(_) => boxed.push(p),
                None => unboxed.push(p),
            }
            proof {
                broadcast use group_to_multiset_ensures;

                assert(boxed@.to_multiset().add(unboxed@.to_multiset()).add(world@.to_multiset())
                    =~= pre_boxed.to_multiset().add(pre_unboxed.to_multiset()).add(
                    pre_world.to_multiset(),
                ));
            }
        }
        proof {
            broadcast use group_to_multiset_ensures;

            assert(world@.to_multiset() =~= Multiset::<Primitive>::empty());
        }
        if boxed.len() == 0 {
            proof {
                broadcast use group_to_multiset_ensures;

                assert(boxed@.to_multiset() =~= Multiset::<Primitive>::empty());
                assert(unboxed@.to_multiset() =~= orig.to_multiset());
            }
            (None, unboxed)
        } else {
            let tree = build(boxed, rng);
            proof {
                assert(tree.elems().to_multiset().add(unboxed@.to_multiset()) =~= orig.to_multiset());
            }
            (Some(tree), unboxed)
        }
    }
}

/// Every primitive in the list has a bounding box.
pub open spec fn all_boxed(s: Seq<Primitive>) -> bool {
    forall|i: int| 0 <= i < s.len() ==> (#[trigger] s[i]).bbox_spec() is Some
}

/// The box-minimum coordinate of the chosen axis, the ordering key of the
/// construction.
fn axis_key(p: &Primitive, axis: u32) -> (k: i128)
    requires
        p.wf(),
        p.bbox_spec() is Some,
{
    let b = p.bounding_box().unwrap();
    if axis % 3 == 0 {
        b.minimum.x
    } else if axis % 3 == 1 {
        b.minimum.y
    } else {
        b.minimum.z
    }
}

/// Selection sort by the chosen axis key.
fn sort_by_axis(v: Vec<Primitive>, axis: u32) -> (r: Vec<Primitive>)
    requires
        objects_wf(v@),
        all_boxed(v@),
    ensures
        objects_wf(r@),
        all_boxed(r@),
        r@.len() == v@.len(),
        r@.to_multiset() == v@.to_multiset(),
{
    let mut v = v;
    let ghost total = v@.len();
    let ghost orig = v@;
    let mut out: Vec<Primitive> = Vec::new();
    proof {
        broadcast use group_to_multiset_ensures;

        assert(out@.to_multiset().add(v@.to_multiset()) =~= orig.to_multiset());
    }
    while v.len() > 0
        invariant
            objects_wf(v@),
            all_boxed(v@),
            objects_wf(out@),
            all_boxed(out@),
            out@.len() + v@.len() == total,
            out@.to_multiset().add(v@.to_multiset()) == orig.to_multiset(),
        decreases v.len(),
    {
        let mut m: usize = 0;
        let mut mk = axis_key(&v[0], axis);
        let mut i: usize = 1;
        while i < v.len()
            invariant
                objects_wf(v@),
                all_boxed(v@),
                v@.len() > 0,
                m < v@.len(),
                i <= v@.len(),
            decreases v.len() - i,
        {
            let k = axis_key(&v[i], axis);
            if k < mk {
                m = i;
                mk = k;
            }
            i = i + 1;
        }
        let ghost pre = v@;
        let ghost pre_out = out@;
        let p = v.remove(m);
        proof {
            assert forall|j: int| 0 <= j < v@.len() implies (#[trigger] v@[j]).wf()
                && v@[j].bbox_spec() is Some by {
                if j < m {
                    assert(v@[j] == pre[j]);
                } else {
                    assert(v@[j] == pre[j + 1]);
                }
            }
        }
        out.push(p);
        proof {
            broadcast use group_to_multiset_ensures;

            assert(pre.contains(p)) by {
                assert(pre[m as int] == p);
            };
            assert(v@.to_multiset() =~= pre.to_multiset().remove(p));
            assert(out@.to_multiset() =~= pre_out.to_multiset().insert(p));
            assert(out@.to_multiset().add(v@.to_multiset()) =~= pre_out.to_multiset().add(
                pre.to_multiset(),
            ));
        }
    }
    out
}

/// Recursive construction: a single primitive becomes a leaf; more are
/// ordered along a random axis and split in half, the node's box being the
/// union of the two subtrees' boxes.
fn build(nodes: Vec<Primitive>, rng: &mut rand::rngs::StdRng) -> (r: Hittable)
    requires
        objects_wf(nodes@),
        all_boxed(nodes@),
        nodes@.len() >= 1,
    ensures
        r.wf(),
        r.elems().to_multiset() == nodes@.to_multiset(),
    decreases nodes@.len(),
{
    let mut nodes = nodes;
    if nodes.len() == 1 {
        proof {
            assert(nodes@[0].wf());
        }
        let ghost pre = nodes@;
        let p = nodes.pop().unwrap();
        proof {
            assert(pre =~= seq![p]);
        }
        Hittable::Primitive(Box::new(p))
    } else {
        let axis = crate::rng::next_u32(rng);
        let sorted = sort_by_axis(nodes, axis);
        let mid = sorted.len() / 2;
        let mut left_vec = sorted;
        let ghost sv = left_vec@;
        let right_vec = left_vec.split_off(mid);
        proof {
            assert(objects_wf(left_vec@));
            assert(all_boxed(left_vec@));
            assert(objects_wf(right_vec@));
            assert(all_boxed(right_vec@));
            assert(sv =~= left_vec@ + right_vec@);
        }
        let ghost sorted_view = left_vec@ + right_vec@;
        let l = build(left_vec, rng);
        let r = build(right_vec, rng);
        let lb = l.bounding_box().unwrap();
        let rb = r.bounding_box().unwrap();
        let bb = surrounding_box(Some(lb), Some(rb)).unwrap();
        proof {
            lemma_multiset_commutative(l.elems(), r.elems());
            lemma_multiset_commutative(left_vec@, right_vec@);
            assert((l.elems() + r.elems()).to_multiset() =~= sorted_view.to_multiset());
        }
        Hittable::BHV(Box::new(BHV { bounding_box: bb, left: Box::new(l), right: Box::new(r) }))
    }
}

/// A point inside the box of any leaf of a well-formed tree is inside the
/// box of every node above it, up to the root: traversal pruning by box
/// tests can never cut off a leaf whose box contains the point.
pub proof fn lemma_leaf_box_in_root(t: Hittable, leaf: Primitive, p: crate::vec3::V3)
    requires
        t.wf(),
        t.has_leaf(leaf),
        leaf.bbox_spec() is Some,
        leaf.bbox_spec()->Some_0.contains(p),
    ensures
        t.bbox().contains(p),
    decreases t,
{
    match t {
        Hittable::Primitive(q) => {
        },
        Hittable::BHV(b) => {
            if b.left.has_leaf(leaf) {
                lemma_leaf_box_in_root(*b.left, leaf, p);
                crate::aabb::lemma_union_contains(b.left.bbox(), b.right.bbox(), p);
            } else {
                lemma_leaf_box_in_root(*b.right, leaf, p);
                crate::aabb::lemma_union_contains(b.left.bbox(), b.right.bbox(), p);
            }
        },
    }
}

} // verus!
