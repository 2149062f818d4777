//! The bounding volume hierarchy: a binary spatial index over hittables.
//! Every node caches a box containing everything beneath it; traversal
//! prunes a whole subtree with one slab test, and searches the right child
//! under an upper bound tightened to the left child's hit so the closest hit
//! is kept without re-testing candidates.

use vstd::prelude::*;
use crate::fx::T_INF;
use crate::vec3::{Vec3, vec_in};
use vstd::multiset::Multiset;
use crate::ray::{Ray, ray_wf};
use crate::aabb::{Aabb, aabb_wf, contains_box, slab_hit, min_i64, max_i64,
    lemma_surrounding_box_contains, lemma_slab_hit_monotone, surrounding_spec};
use crate::hit_record::{HitRecord, rec_in_range};
use crate::hittable::{Hittable, hittable_wf, hittable_time_ok, hittable_span_ok,
    hittable_hit_spec, hittable_bbox_spec, list_wf, list_time_ok, list_span_ok,
    scan_hit};
use crate::sphere::{TIME_MAX, Sphere, sphere_wf, sphere_hit_t, sphere_hit_interior,
    sphere_box_at, sphere_bbox_spec, lemma_sphere_hit_in_box};
use crate::rng::Prng;

verus! {

/// Why a spatial index could not be built.
#[derive(Clone, Copy, PartialEq, Eq, Structural, Debug)]
pub enum SceneError {
    /// The object list was empty; a BVH must index at least one primitive.
    EmptyScene,
    /// Some object has no computable bounding box.
    MissingBoundingBox,
}

/// A leaf holding one object, or a branch of two subtrees.
pub enum BVHNode {
    Branch { left: Box<BVH>, right: Box<BVH> },
    Leaf(Box<Hittable>),
}

/// A BVH node with its cached bounding box.
pub struct BVH {
    pub tree: BVHNode,
    pub bbox: Aabb,
}

/// Structural well-formedness: every box ordered and in range, and every
/// branch box containing both children's boxes (the tree invariant pruning
/// relies on).
pub open spec fn bvh_wf(b: BVH) -> bool
    decreases b
{
    aabb_wf(b.bbox)
        && vec_in(b.bbox.minimum, 0x4000_0000)
        && vec_in(b.bbox.maximum, 0x4000_0000)
        && match b.tree {
            BVHNode::Leaf(o) => hittable_wf(*o),
            BVHNode::Branch { left, right } => bvh_wf(*left) && bvh_wf(*right)
                && contains_box(b.bbox, left.bbox) && contains_box(b.bbox, right.bbox),
        }
}

/// The ray's time is acceptable to every leaf.
pub open spec fn bvh_time_ok(b: BVH, time: int) -> bool
    decreases b
{
    match b.tree {
        BVHNode::Leaf(o) => hittable_time_ok(*o, time),
        BVHNode::Branch { left, right } => bvh_time_ok(*left, time) && bvh_time_ok(*right, time),
    }
}

/// The query time span is acceptable to every leaf.
pub open spec fn bvh_span_ok(b: BVH, t0: int, t1: int) -> bool
    decreases b
{
    match b.tree {
        BVHNode::Leaf(o) => hittable_span_ok(*o, t0, t1),
        BVHNode::Branch { left, right } => bvh_span_ok(*left, t0, t1)
            && bvh_span_ok(*right, t0, t1),
    }
}

/// The objects at the leaves, left to right.
pub open spec fn bvh_leaves(b: BVH) -> Seq<Hittable>
    decreases b
{
    match b.tree {
        BVHNode::Leaf(o) => seq![*o],
        BVHNode::Branch { left, right } => bvh_leaves(*left) + bvh_leaves(*right),
    }
}

/// Every node's box contains the box of everything beneath it, over the
/// given time span (established bottom-up at construction).
pub open spec fn bvh_covers_boxes(b: BVH, t0: int, t1: int) -> bool
    decreases b
{
    match b.tree {
        BVHNode::Leaf(o) => match hittable_bbox_spec(*o, t0, t1) {
            Some(ob) => contains_box(b.bbox, ob),
            None => false,
        },
        BVHNode::Branch { left, right } => bvh_covers_boxes(*left, t0, t1)
            && bvh_covers_boxes(*right, t0, t1)
            && contains_box(b.bbox, left.bbox) && contains_box(b.bbox, right.bbox),
    }
}

/// The box contains every listed object's bounding box.
pub open spec fn boxes_bounded_by(bb: Aabb, objs: Seq<Hittable>, t0: int, t1: int) -> bool {
    forall|i: int| 0 <= i < objs.len()
        ==> match #[trigger] hittable_bbox_spec(objs[i], t0, t1) {
            Some(ob) => contains_box(bb, ob),
            None => false,
        }
}

/// Each of the box's six bounds is attained by some listed object's box.
/// Together with `boxes_bounded_by` this pins the box as the exact
/// componentwise union of the objects' boxes (`lemma_union_box_unique`).
pub open spec fn box_bounds_attained(bb: Aabb, objs: Seq<Hittable>, t0: int, t1: int) -> bool {
    (exists|i: int| 0 <= i < objs.len()
        && match #[trigger] hittable_bbox_spec(objs[i], t0, t1) {
            Some(ob) => ob.minimum.x == bb.minimum.x,
            None => false,
        })
    && (exists|i: int| 0 <= i < objs.len()
        && match #[trigger] hittable_bbox_spec(objs[i], t0, t1) {
            Some(ob) => ob.minimum.y == bb.minimum.y,
            None => false,
        })
    && (exists|i: int| 0 <= i < objs.len()
        && match #[trigger] hittable_bbox_spec(objs[i], t0, t1) {
            Some(ob) => ob.minimum.z == bb.minimum.z,
            None => false,
        })
    && (exists|i: int| 0 <= i < objs.len()
        && match #[trigger] hittable_bbox_spec(objs[i], t0, t1) {
            Some(ob) => ob.maximum.x == bb.maximum.x,
            None => false,
        })
    && (exists|i: int| 0 <= i < objs.len()
        && match #[trigger] hittable_bbox_spec(objs[i], t0, t1) {
            Some(ob) => ob.maximum.y == bb.maximum.y,
            None => false,
        })
    && (exists|i: int| 0 <= i < objs.len()
        && match #[trigger] hittable_bbox_spec(objs[i], t0, t1) {
            Some(ob) => ob.maximum.z == bb.maximum.z,
            None => false,
        })
}

/// Law: a box that bounds all of a list's boxes and attains each of its six
/// bounds on some member is the componentwise union of those boxes — there
/// is exactly one such box.
pub proof fn lemma_union_box_unique(b1: Aabb, b2: Aabb, objs: Seq<Hittable>, t0: int, t1: int)
    requires
        boxes_bounded_by(b1, objs, t0, t1),
        box_bounds_attained(b1, objs, t0, t1),
        boxes_bounded_by(b2, objs, t0, t1),
        box_bounds_attained(b2, objs, t0, t1),
    ensures
        b1 == b2,
{
    assert(b2.minimum.x <= b1.minimum.x && b1.minimum.x <= b2.minimum.x) by {
        let i = choose|i: int| 0 <= i < objs.len()
            && match #[trigger] hittable_bbox_spec(objs[i], t0, t1) {
                Some(ob) => ob.minimum.x == b1.minimum.x,
                None => false,
            };
        let j = choose|j: int| 0 <= j < objs.len()
            && match #[trigger] hittable_bbox_spec(objs[j], t0, t1) {
                Some(ob) => ob.minimum.x == b2.minimum.x,
                None => false,
            };
        assert(hittable_bbox_spec(objs[i], t0, t1) is Some);
        assert(hittable_bbox_spec(objs[j], t0, t1) is Some);
    }
    assert(b2.minimum.y <= b1.minimum.y && b1.minimum.y <= b2.minimum.y) by {
        let i = choose|i: int| 0 <= i < objs.len()
            && match #[trigger] hittable_bbox_spec(objs[i], t0, t1) {
                Some(ob) => ob.minimum.y == b1.minimum.y,
                None => false,
            };
        let j = choose|j: int| 0 <= j < objs.len()
            && match #[trigger] hittable_bbox_spec(objs[j], t0, t1) {
                Some(ob) => ob.minimum.y == b2.minimum.y,
                None => false,
            };
        assert(hittable_bbox_spec(objs[i], t0, t1) is Some);
        assert(hittable_bbox_spec(objs[j], t0, t1) is Some);
    }
    assert(b2.minimum.z <= b1.minimum.z && b1.minimum.z <= b2.minimum.z) by {
        let i = choose|i: int| 0 <= i < objs.len()
            && match #[trigger] hittable_bbox_spec(objs[i], t0, t1) {
                Some(ob) => ob.minimum.z == b1.minimum.z,
                None => false,
            };
        let j = choose|j: int| 0 <= j < objs.len()
            && match #[trigger] hittable_bbox_spec(objs[j], t0, t1) {
                Some(ob) => ob.minimum.z == b2.minimum.z,
                None => false,
            };
        assert(hittable_bbox_spec(objs[i], t0, t1) is Some);
        assert(hittable_bbox_spec(objs[j], t0, t1) is Some);
    }
    assert(b1.maximum.x <= b2.maximum.x && b2.maximum.x <= b1.maximum.x) by {
        let i = choose|i: int| 0 <= i < objs.len()
            && match #[trigger] hittable_bbox_spec(objs[i], t0, t1) {
                Some(ob) => ob.maximum.x == b1.maximum.x,
                None => false,
            };
        let j = choose|j: int| 0 <= j < objs.len()
            && match #[trigger] hittable_bbox_spec(objs[j], t0, t1) {
                Some(ob) => ob.maximum.x == b2.maximum.x,
                None => false,
            };
        assert(hittable_bbox_spec(objs[i], t0, t1) is Some);
        assert(hittable_bbox_spec(objs[j], t0, t1) is Some);
    }
    assert(b1.maximum.y <= b2.maximum.y && b2.maximum.y <= b1.maximum.y) by {
        let i = choose|i: int| 0 <= i < objs.len()
            && match #[trigger] hittable_bbox_spec(objs[i], t0, t1) {
                Some(ob) => ob.maximum.y == b1.maximum.y,
                None => false,
            };
        let j = choose|j: int| 0 <= j < objs.len()
            && match #[trigger] hittable_bbox_spec(objs[j], t0, t1) {
                Some(ob) => ob.maximum.y == b2.maximum.y,
                None => false,
            };
        assert(hittable_bbox_spec(objs[i], t0, t1) is Some);
        assert(hittable_bbox_spec(objs[j], t0, t1) is Some);
    }
    assert(b1.maximum.z <= b2.maximum.z && b2.maximum.z <= b1.maximum.z) by {
        let i = choose|i: int| 0 <= i < objs.len()
            && match #[trigger] hittable_bbox_spec(objs[i], t0, t1) {
                Some(ob) => ob.maximum.z == b1.maximum.z,
                None => false,
            };
        let j = choose|j: int| 0 <= j < objs.len()
            && match #[trigger] hittable_bbox_spec(objs[j], t0, t1) {
                Some(ob) => ob.maximum.z == b2.maximum.z,
                None => false,
            };
        assert(hittable_bbox_spec(objs[i], t0, t1) is Some);
        assert(hittable_bbox_spec(objs[j], t0, t1) is Some);
    }
    assert(b1.minimum == b2.minimum);
    assert(b1.maximum == b2.maximum);
}

/// Exact value of `BVH::hit`: prune on the cached box, else delegate; a
/// branch queries the left child first, then the right child under an upper
/// bound tightened to the left hit, preferring the right result.
pub open spec fn bvh_hit_spec(b: BVH, r: Ray, t0: int, t1: int, s: u64)
    -> (Option<HitRecord>, u64)
    decreases b
{
    if !slab_hit(b.bbox.minimum, b.bbox.maximum, r, t0, t1) {
        (None, s)
    } else {
        match b.tree {
            BVHNode::Leaf(o) => hittable_hit_spec(*o, r, t0, t1, s),
            BVHNode::Branch { left, right } => {
                let hl = bvh_hit_spec(*left, r, t0, t1, s);
                let t2 = match hl.0 {
                    Some(rec) => rec.t as int,
                    None => t1,
                };
                let hr = bvh_hit_spec(*right, r, t0, t2, hl.1);
                match hr.0 {
                    Some(_) => hr,
                    None => (hl.0, hr.1),
                }
            },
        }
    }
}

impl BVH {
    /// Closest hit beneath this node in `[t_min, t_max]`.
    pub fn hit(&self, r: &Ray, t_min: i64, t_max: i64, rng: &mut Prng)
        -> (res: Option<HitRecord>)
        requires
            bvh_wf(*self),
            bvh_time_ok(*self, r.time as int),
            ray_wf(*r),
            -T_INF <= t_min <= T_INF,
            -T_INF <= t_max <= T_INF,
        ensures
            ({
                let h = bvh_hit_spec(*self, *r, t_min as int, t_max as int, old(rng).state);
                res == h.0 && final(rng).state == h.1
            }),
            rec_in_range(res, t_min as int, t_max as int),
        decreases *self,
    {
        if !self.bbox.hit(r, t_min, t_max) {
            return None;
        }
        match &self.tree {
            BVHNode::Leaf(o) => o.hit(r, t_min, t_max, rng),
            BVHNode::Branch { left, right } => {
                let hl = left.hit(r, t_min, t_max, rng);
                let t2 = match &hl {
                    Some(rec) => rec.t,
                    None => t_max,
                };
                let hr = right.hit(r, t_min, t2, rng);
                match hr {
                    Some(rec) => Some(rec),
                    None => hl,
                }
            },
        }
    }

    /// The cached box, valid for any time span the node was built over.
    pub fn bounding_box(&self, time0: i64, time1: i64) -> (res: Option<Aabb>)
        requires
            bvh_wf(*self),
        ensures
            res == Some(self.bbox),
    {
        Some(self.bbox)
    }

    /// Builds the spatial index over a nonempty list of objects that all
    /// have bounding boxes: pick the axis with the widest extent, sort by
    /// box midpoint along it, split at the middle and recurse. Fails exactly
    /// on an empty list or an object with no box.
    pub fn new(objects: Vec<Hittable>, time0: i64, time1: i64)
        -> (res: Result<BVH, SceneError>)
        requires
            list_wf(objects@),
            list_span_ok(objects@, time0 as int, time1 as int),
            -TIME_MAX <= time0 <= time1 <= TIME_MAX,
        ensures
            match res {
                Ok(b) => bvh_wf(b)
                    && bvh_covers_boxes(b, time0 as int, time1 as int)
                    && boxes_bounded_by(b.bbox, objects@, time0 as int, time1 as int)
                    && box_bounds_attained(b.bbox, objects@, time0 as int, time1 as int)
                    && bvh_leaves(b).to_multiset() == objects@.to_multiset()
                    && (forall|time: int| list_time_ok(objects@, time)
                        ==> #[trigger] bvh_time_ok(b, time))
                    && (forall|ta: int, tb: int| list_span_ok(objects@, ta, tb)
                        ==> #[trigger] bvh_span_ok(b, ta, tb)),
                Err(e) => if objects@.len() == 0 {
                    e == SceneError::EmptyScene
                } else {
                    e == SceneError::MissingBoundingBox
                },
            },
            res is Err <==> (objects@.len() == 0 || !list_all_boxed(objects@, time0 as int,
                time1 as int)),
    {
        let n = objects.len();
        if n == 0 {
            return Err(SceneError::EmptyScene);
        }
        let mut i: usize = 0;
        while i < n
            invariant
                n == objects@.len(),
                0 <= i <= n,
                list_wf(objects@),
                list_span_ok(objects@, time0 as int, time1 as int),
                -TIME_MAX <= time0 <= time1 <= TIME_MAX,
                forall|j: int| 0 <= j < i
                    ==> hittable_bbox_spec(#[trigger] objects@[j], time0 as int, time1 as int)
                        is Some,
            decreases n - i,
        {
            if objects[i].bounding_box(time0, time1).is_none() {
                return Err(SceneError::MissingBoundingBox);
            }
            i = i + 1;
        }
        Ok(Self::build(objects, time0, time1))
    }

    /// The recursive construction over a nonempty, fully boxed list.
    #[verifier::rlimit(100)]
    #[verifier::spinoff_prover]
    fn build(objects: Vec<Hittable>, time0: i64, time1: i64) -> (b: BVH)
        requires
            objects@.len() >= 1,
            list_wf(objects@),
            list_span_ok(objects@, time0 as int, time1 as int),
            list_all_boxed(objects@, time0 as int, time1 as int),
            -TIME_MAX <= time0 <= time1 <= TIME_MAX,
        ensures
            bvh_wf(b),
            bvh_covers_boxes(b, time0 as int, time1 as int),
            boxes_bounded_by(b.bbox, objects@, time0 as int, time1 as int),
            box_bounds_attained(b.bbox, objects@, time0 as int, time1 as int),
            bvh_leaves(b).to_multiset() == objects@.to_multiset(),
            forall|time: int| list_time_ok(objects@, time) ==> #[trigger] bvh_time_ok(b, time),
            forall|ta: int, tb: int| list_span_ok(objects@, ta, tb)
                ==> #[trigger] bvh_span_ok(b, ta, tb),
        decreases objects@.len(),
    {
        let ghost orig = objects@;
        let n = objects.len();
        let axis = pick_axis(&objects, time0, time1);
        let mut sorted = sort_by_mid(objects, axis, time0, time1);
        let ghost whole = sorted@;
        proof {
            lemma_pred_transfer(orig, whole, |o: Hittable| hittable_wf(o));
            lemma_pred_transfer(orig, whole,
                |o: Hittable| hittable_span_ok(o, time0 as int, time1 as int));
            lemma_pred_transfer(orig, whole,
                |o: Hittable| hittable_bbox_spec(o, time0 as int, time1 as int) is Some);
            assert(list_wf(whole));
            assert(list_span_ok(whole, time0 as int, time1 as int));
            assert(list_all_boxed(whole, time0 as int, time1 as int));
        }
        if n == 1 {
            let bb = sorted[0].bounding_box(time0, time1);
            let o = sorted.remove(0);
            let ob = bb.unwrap();
            let b = BVH { tree: BVHNode::Leaf(Box::new(o)), bbox: ob };
            proof {
                assert(whole =~= seq![o]);
                assert(bvh_leaves(b) =~= whole);
                assert(bvh_leaves(b).to_multiset() == orig.to_multiset());
                assert(whole.contains(o));
                vstd::seq_lib::to_multiset_contains(whole, o);
                vstd::seq_lib::to_multiset_contains(orig, o);
                assert(orig.contains(o));
                let k = choose|k: int| 0 <= k < orig.len() && orig[k] == o;
                assert(orig.len() == 1);
                assert(orig[0] == o);
                assert(hittable_bbox_spec(orig[0], time0 as int, time1 as int) == Some(ob));
                assert(boxes_bounded_by(b.bbox, orig, time0 as int, time1 as int));
                assert(box_bounds_attained(b.bbox, orig, time0 as int, time1 as int));
                assert forall|time: int| list_time_ok(orig, time)
                    implies #[trigger] bvh_time_ok(b, time) by {
                    lemma_pred_transfer(orig, whole,
                        |ob2: Hittable| hittable_time_ok(ob2, time));
                    assert(hittable_time_ok(whole[0], time));
                }
                assert forall|ta: int, tb: int| list_span_ok(orig, ta, tb)
                    implies #[trigger] bvh_span_ok(b, ta, tb) by {
                    lemma_pred_transfer(orig, whole,
                        |ob2: Hittable| hittable_span_ok(ob2, ta, tb));
                    assert(hittable_span_ok(whole[0], ta, tb));
                }
            }
            b
        } else {
            let mid = n / 2;
            let right_objs = sorted.split_off(mid);
            let ghost left_seq = sorted@;
            let ghost right_seq = right_objs@;
            proof {
                assert(whole =~= left_seq + right_seq);
                vstd::seq_lib::lemma_multiset_commutative(left_seq, right_seq);
            }
            let left = Self::build(sorted, time0, time1);
            let right = Self::build(right_objs, time0, time1);
            let bbox = Aabb::surrounding_box(&left.bbox, &right.bbox);
            proof {
                lemma_surrounding_box_contains(left.bbox, right.bbox);
            }
            let b = BVH {
                tree: BVHNode::Branch { left: Box::new(left), right: Box::new(right) },
                bbox,
            };
            proof {
                let lt = *b.tree->Branch_left;
                let rt = *b.tree->Branch_right;
                assert(bvh_leaves(b) =~= bvh_leaves(lt) + bvh_leaves(rt));
                vstd::seq_lib::lemma_multiset_commutative(bvh_leaves(lt), bvh_leaves(rt));
                assert(bvh_leaves(b).to_multiset() == orig.to_multiset());
                lemma_branch_union(b.bbox, lt, rt, whole, left_seq, right_seq,
                    orig, time0 as int, time1 as int);
                assert forall|time: int| list_time_ok(orig, time)
                    implies #[trigger] bvh_time_ok(b, time) by {
                    lemma_pred_transfer(orig, whole,
                        |ob2: Hittable| hittable_time_ok(ob2, time));
                    assert(list_time_ok(whole, time));
                    assert forall|i: int| 0 <= i < left_seq.len()
                        implies hittable_time_ok(#[trigger] left_seq[i], time) by {
                        assert(left_seq[i] == whole[i]);
                    }
                    assert forall|i: int| 0 <= i < right_seq.len()
                        implies hittable_time_ok(#[trigger] right_seq[i], time) by {
                        assert(right_seq[i] == whole[i + left_seq.len()]);
                    }
                    assert(list_time_ok(left_seq, time));
                    assert(list_time_ok(right_seq, time));
                    assert(bvh_time_ok(lt, time));
                    assert(bvh_time_ok(rt, time));
                }
                assert forall|ta: int, tb: int| list_span_ok(orig, ta, tb)
                    implies #[trigger] bvh_span_ok(b, ta, tb) by {
                    lemma_pred_transfer(orig, whole,
                        |ob2: Hittable| hittable_span_ok(ob2, ta, tb));
                    assert(list_span_ok(whole, ta, tb));
                    assert forall|i: int| 0 <= i < left_seq.len()
                        implies hittable_span_ok(#[trigger] left_seq[i], ta, tb) by {
                        assert(left_seq[i] == whole[i]);
                    }
                    assert forall|i: int| 0 <= i < right_seq.len()
                        implies hittable_span_ok(#[trigger] right_seq[i], ta, tb) by {
                        assert(right_seq[i] == whole[i + left_seq.len()]);
                    }
                    assert(list_span_ok(left_seq, ta, tb));
                    assert(list_span_ok(right_seq, ta, tb));
                    assert(bvh_span_ok(lt, ta, tb));
                    assert(bvh_span_ok(rt, ta, tb));
                }
            }
            b
        }
    }
}

/// Every object has a bounding box over the span.
pub open spec fn list_all_boxed(objs: Seq<Hittable>, t0: int, t1: int) -> bool {
    forall|i: int| 0 <= i < objs.len()
        ==> hittable_bbox_spec(#[trigger] objs[i], t0, t1) is Some
}

/// Sort key of an object: the sum of its box's two bounds on the chosen
/// axis (twice the midpoint).
pub open spec fn obj_key(o: Hittable, axis: int, t0: int, t1: int) -> int {
    match hittable_bbox_spec(o, t0, t1) {
        Some(b) => if axis == 0 {
            b.minimum.x + b.maximum.x
        } else if axis == 1 {
            b.minimum.y + b.maximum.y
        } else {
            b.minimum.z + b.maximum.z
        },
        None => 0,
    }
}

/// Nondecreasing by `obj_key`.
pub open spec fn sorted_by_key(objs: Seq<Hittable>, axis: int, t0: int, t1: int) -> bool {
    forall|i: int, j: int| 0 <= i < j < objs.len()
        ==> obj_key(#[trigger] objs[i], axis, t0, t1) <= obj_key(#[trigger] objs[j], axis, t0, t1)
}

/// A pointwise property carries across any reordering (multiset equality).
pub proof fn lemma_pred_transfer(a: Seq<Hittable>, b: Seq<Hittable>, p: spec_fn(Hittable) -> bool)
    requires
        a.to_multiset() == b.to_multiset(),
        forall|i: int| 0 <= i < a.len() ==> p(#[trigger] a[i]),
    ensures
        forall|i: int| 0 <= i < b.len() ==> p(#[trigger] b[i]),
        a.len() == b.len(),
{
    broadcast use vstd::seq_lib::group_to_multiset_ensures;
    vstd::seq_lib::to_multiset_len(a);
    vstd::seq_lib::to_multiset_len(b);
    assert forall|i: int| 0 <= i < b.len() implies p(#[trigger] b[i]) by {
        assert(b.contains(b[i]));
        vstd::seq_lib::to_multiset_contains(b, b[i]);
        vstd::seq_lib::to_multiset_contains(a, b[i]);
        assert(a.contains(b[i]));
        let j = choose|j: int| 0 <= j < a.len() && a[j] == b[i];
        assert(p(a[j]));
    }
}

/// The box-midpoint sort key of one object.
fn key_of(o: &Hittable, axis: u8, time0: i64, time1: i64) -> (k: i64)
    requires
        hittable_wf(*o),
        hittable_span_ok(*o, time0 as int, time1 as int),
        hittable_bbox_spec(*o, time0 as int, time1 as int) is Some,
        -TIME_MAX <= time0 <= time1 <= TIME_MAX,
    ensures
        k == obj_key(*o, axis as int, time0 as int, time1 as int),
{
    let b = o.bounding_box(time0, time1).unwrap();
    if axis == 0 {
        b.minimum.x + b.maximum.x
    } else if axis == 1 {
        b.minimum.y + b.maximum.y
    } else {
        b.minimum.z + b.maximum.z
    }
}

/// The axis along which the objects' boxes span the widest range (the greedy
/// balance heuristic of the construction).
fn pick_axis(objects: &Vec<Hittable>, time0: i64, time1: i64) -> (axis: u8)
    requires
        objects@.len() >= 1,
        list_wf(objects@),
        list_span_ok(objects@, time0 as int, time1 as int),
        list_all_boxed(objects@, time0 as int, time1 as int),
        -TIME_MAX <= time0 <= time1 <= TIME_MAX,
    ensures
        axis <= 2,
{
    let n = objects.len();
    let mut mins = Vec3 { x: 0x4000_0000, y: 0x4000_0000, z: 0x4000_0000 };
    let mut maxs = Vec3 { x: -0x4000_0000, y: -0x4000_0000, z: -0x4000_0000 };
    let mut i: usize = 0;
    while i < n
        invariant
            n == objects@.len(),
            0 <= i <= n,
            list_wf(objects@),
            list_span_ok(objects@, time0 as int, time1 as int),
            list_all_boxed(objects@, time0 as int, time1 as int),
            -TIME_MAX <= time0 <= time1 <= TIME_MAX,
            vec_in(mins, 0x4000_0000),
            vec_in(maxs, 0x4000_0000),
        decreases n - i,
    {
        let b = objects[i].bounding_box(time0, time1).unwrap();
        mins = Vec3 {
            x: min_i64(mins.x, b.minimum.x),
            y: min_i64(mins.y, b.minimum.y),
            z: min_i64(mins.z, b.minimum.z),
        };
        maxs = Vec3 {
            x: max_i64(maxs.x, b.maximum.x),
            y: max_i64(maxs.y, b.maximum.y),
            z: max_i64(maxs.z, b.maximum.z),
        };
        i = i + 1;
    }
    let rx = maxs.x - mins.x;
    let ry = maxs.y - mins.y;
    let rz = maxs.z - mins.z;
    if rx >= ry && rx >= rz {
        0
    } else if ry >= rz {
        1
    } else {
        2
    }
}

/// Sorts the objects by box midpoint along the chosen axis (selection sort:
/// repeatedly move a remaining object of least key). The result is the same
/// collection of objects, in nondecreasing key order.
fn sort_by_mid(objects: Vec<Hittable>, axis: u8, time0: i64, time1: i64)
    -> (sorted: Vec<Hittable>)
    requires
        list_wf(objects@),
        list_span_ok(objects@, time0 as int, time1 as int),
        list_all_boxed(objects@, time0 as int, time1 as int),
        -TIME_MAX <= time0 <= time1 <= TIME_MAX,
    ensures
        sorted@.to_multiset() == objects@.to_multiset(),
        sorted_by_key(sorted@, axis as int, time0 as int, time1 as int),
    decreases objects@.len(),
{
    broadcast use vstd::seq_lib::group_to_multiset_ensures;
    let ghost orig = objects@;
    let mut rest = objects;
    let mut out: Vec<Hittable> = Vec::new();
    proof {
        assert(out@.to_multiset().add(rest@.to_multiset()) =~= orig.to_multiset());
    }
    while rest.len() > 0
        invariant
            out@.to_multiset().add(rest@.to_multiset()) == orig.to_multiset(),
            list_wf(rest@),
            list_span_ok(rest@, time0 as int, time1 as int),
            list_all_boxed(rest@, time0 as int, time1 as int),
            list_wf(out@),
            list_span_ok(out@, time0 as int, time1 as int),
            list_all_boxed(out@, time0 as int, time1 as int),
            sorted_by_key(out@, axis as int, time0 as int, time1 as int),
            -TIME_MAX <= time0 <= time1 <= TIME_MAX,
            forall|i: int, j: int| 0 <= i < out@.len() && 0 <= j < rest@.len()
                ==> obj_key(#[trigger] out@[i], axis as int, time0 as int, time1 as int)
                    <= obj_key(#[trigger] rest@[j], axis as int, time0 as int, time1 as int),
        decreases rest.len(),
    {
        let m = rest.len();
        let mut mi: usize = 0;
        let mut mk = key_of(&rest[0], axis, time0, time1);
        let mut j: usize = 1;
        while j < m
            invariant
                m == rest@.len(),
                0 <= mi < m,
                1 <= j <= m,
                list_wf(rest@),
                list_span_ok(rest@, time0 as int, time1 as int),
                list_all_boxed(rest@, time0 as int, time1 as int),
                -TIME_MAX <= time0 <= time1 <= TIME_MAX,
                mk == obj_key(rest@[mi as int], axis as int, time0 as int, time1 as int),
                forall|l: int| 0 <= l < j
                    ==> mk <= obj_key(#[trigger] rest@[l], axis as int, time0 as int,
                        time1 as int),
            decreases m - j,
        {
            let kj = key_of(&rest[j], axis, time0, time1);
            if kj < mk {
                mi = j;
                mk = kj;
            }
            j = j + 1;
        }
        let ghost rest_before = rest@;
        let x = rest.remove(mi);
        proof {
            vstd::seq_lib::to_multiset_remove(rest_before, mi as int);
            assert(rest@.to_multiset() == rest_before.to_multiset().remove(x));
            assert forall|l: int| 0 <= l < rest@.len() implies
                hittable_wf(#[trigger] rest@[l])
                && hittable_span_ok(rest@[l], time0 as int, time1 as int)
                && (hittable_bbox_spec(rest@[l], time0 as int, time1 as int) is Some)
                && mk <= obj_key(rest@[l], axis as int, time0 as int, time1 as int) by {
                if l < mi as int {
                    assert(rest@[l] == rest_before[l]);
                } else {
                    assert(rest@[l] == rest_before[l + 1]);
                }
            }
            assert(rest_before.contains(x));
            vstd::seq_lib::to_multiset_contains(rest_before, x);
            assert(rest_before.to_multiset().count(x) > 0);
        }
        let ghost out_before = out@;
        out.push(x);
        proof {
            vstd::seq_lib::to_multiset_build(out_before, x);
            assert(out@.to_multiset() == out_before.to_multiset().insert(x));
            assert(out@.to_multiset().add(rest@.to_multiset()) =~= orig.to_multiset());
            assert forall|i: int| 0 <= i < out@.len() implies
                hittable_wf(#[trigger] out@[i])
                && hittable_span_ok(out@[i], time0 as int, time1 as int)
                && (hittable_bbox_spec(out@[i], time0 as int, time1 as int) is Some) by {
                if i < out_before.len() {
                    assert(out@[i] == out_before[i]);
                } else {
                    assert(out@[i] == x);
                }
            }
        }
    }
    proof {
        assert(rest@.to_multiset() =~= Multiset::<Hittable>::empty());
        assert(out@.to_multiset().add(rest@.to_multiset()) =~= out@.to_multiset());
    }
    out
}

/// Every leaf is a (deterministic) sphere.
pub open spec fn spheres_only(b: BVH) -> bool
    decreases b
{
    match b.tree {
        BVHNode::Leaf(o) => *o is Sphere,
        BVHNode::Branch { left, right } => spheres_only(*left) && spheres_only(*right),
    }
}

/// The semantic form of the tree invariant traversal relies upon: whenever a
/// node's cached box is missed on some interval, every leaf beneath it misses
/// that interval too; and likewise for every subtree.
pub open spec fn prunes_safely(b: BVH, r: Ray) -> bool
    decreases b
{
    (forall|t0: int, t1: int, s: u64, i: int|
        0 <= i < bvh_leaves(b).len()
            && !slab_hit(b.bbox.minimum, b.bbox.maximum, r, t0, t1)
        ==> (#[trigger] hittable_hit_spec(bvh_leaves(b)[i], r, t0, t1, s)).0 is None)
    && match b.tree {
        BVHNode::Leaf(_) => true,
        BVHNode::Branch { left, right } => prunes_safely(*left, r) && prunes_safely(*right, r),
    }
}

/// The leaf-level part of `prunes_safely`: each leaf object misses whenever
/// the box of its own leaf node is missed.
pub open spec fn leaf_prunes(b: BVH, r: Ray) -> bool
    decreases b
{
    match b.tree {
        BVHNode::Leaf(o) => forall|t0: int, t1: int, s: u64|
            !slab_hit(b.bbox.minimum, b.bbox.maximum, r, t0, t1)
                ==> (#[trigger] hittable_hit_spec(*o, r, t0, t1, s)).0 is None,
        BVHNode::Branch { left, right } => leaf_prunes(*left, r) && leaf_prunes(*right, r),
    }
}

/// Law: safe pruning propagates up the tree. In a well-formed tree (every
/// branch box containing its children's boxes) where each leaf's own box
/// covers that leaf's hits, every node's box covers everything beneath it:
/// the slab test's monotonicity in the box carries the leaf guarantee to
/// every ancestor.
pub proof fn lemma_prunes_from_leaves(b: BVH, r: Ray)
    requires
        bvh_wf(b),
        leaf_prunes(b, r),
    ensures
        prunes_safely(b, r),
    decreases b,
{
    match b.tree {
        BVHNode::Leaf(o) => {
            assert(bvh_leaves(b)[0] == *o);
        },
        BVHNode::Branch { left, right } => {
            lemma_prunes_from_leaves(*left, r);
            lemma_prunes_from_leaves(*right, r);
            let ls = bvh_leaves(*left);
            let rs = bvh_leaves(*right);
            assert(bvh_leaves(b) =~= ls + rs);
            assert forall|t0: int, t1: int, s: u64, i: int|
                0 <= i < bvh_leaves(b).len()
                    && !slab_hit(b.bbox.minimum, b.bbox.maximum, r, t0, t1)
                implies (#[trigger] hittable_hit_spec(bvh_leaves(b)[i], r, t0, t1, s)).0
                    is None by {
                if slab_hit(left.bbox.minimum, left.bbox.maximum, r, t0, t1) {
                    lemma_slab_hit_monotone(left.bbox, b.bbox, r, t0, t1);
                }
                if slab_hit(right.bbox.minimum, right.bbox.maximum, r, t0, t1) {
                    lemma_slab_hit_monotone(right.bbox, b.bbox, r, t0, t1);
                }
                if i < ls.len() {
                    assert(bvh_leaves(b)[i] == ls[i]);
                } else {
                    assert(bvh_leaves(b)[i] == rs[i - ls.len()]);
                }
            }
        },
    }
}

/// In a spheres-only tree every leaf is a sphere.
proof fn lemma_leaves_are_spheres(b: BVH)
    requires
        spheres_only(b),
    ensures
        forall|i: int| 0 <= i < bvh_leaves(b).len() ==> #[trigger] bvh_leaves(b)[i] is Sphere,
    decreases b,
{
    match b.tree {
        BVHNode::Leaf(o) => {},
        BVHNode::Branch { left, right } => {
            lemma_leaves_are_spheres(*left);
            lemma_leaves_are_spheres(*right);
            assert forall|i: int| 0 <= i < bvh_leaves(b).len()
                implies #[trigger] bvh_leaves(b)[i] is Sphere by {
                if i < bvh_leaves(*left).len() {
                    assert(bvh_leaves(b)[i] == bvh_leaves(*left)[i]);
                } else {
                    assert(bvh_leaves(b)[i]
                        == bvh_leaves(*right)[i - bvh_leaves(*left).len()]);
                }
            }
        },
    }
}

/// A sphere leaf never touches the sampler state.
proof fn lemma_sphere_state(o: Hittable, r: Ray, t0: int, t1: int, s: u64)
    requires
        o is Sphere,
    ensures
        hittable_hit_spec(o, r, t0, t1, s).1 == s,
{
}

/// When every object misses (and none touches the state), the scan returns
/// its starting accumulator unchanged.
proof fn lemma_scan_all_miss(
    objs: Seq<Hittable>, r: Ray, t0: int, cur: int, best: Option<HitRecord>, s: u64,
)
    requires
        forall|i: int| 0 <= i < objs.len() ==> #[trigger] objs[i] is Sphere,
        forall|i: int, s2: u64| 0 <= i < objs.len()
            ==> (#[trigger] hittable_hit_spec(objs[i], r, t0, cur, s2)).0 is None,
    ensures
        scan_hit(objs, r, t0, cur, best, s) == (best, s),
    decreases objs.len(),
{
    if objs.len() == 0 {
    } else {
        lemma_sphere_state(objs[0], r, t0, cur, s);
        assert forall|i: int| 0 <= i < objs.drop_first().len()
            implies #[trigger] objs.drop_first()[i] is Sphere by {
            assert(objs.drop_first()[i] == objs[i + 1]);
        }
        assert forall|i: int, s2: u64| 0 <= i < objs.drop_first().len()
            implies (#[trigger] hittable_hit_spec(objs.drop_first()[i], r, t0, cur, s2)).0
                is None by {
            assert(objs.drop_first()[i] == objs[i + 1]);
        }
        lemma_scan_all_miss(objs.drop_first(), r, t0, cur, best, s);
    }
}

/// A scan seeded with a record never comes back empty-handed.
proof fn lemma_scan_some(
    objs: Seq<Hittable>, r: Ray, t0: int, cur: int, rec: HitRecord, s: u64,
)
    ensures
        scan_hit(objs, r, t0, cur, Some(rec), s).0 is Some,
    decreases objs.len(),
{
    reveal_with_fuel(scan_hit, 2);
    if objs.len() == 0 {
    } else {
        let h = hittable_hit_spec(objs[0], r, t0, cur, s);
        match h.0 {
            Some(rec2) => {
                lemma_scan_some(objs.drop_first(), r, t0, rec2.t as int, rec2, h.1);
            },
            None => {
                lemma_scan_some(objs.drop_first(), r, t0, cur, rec, h.1);
            },
        }
    }
}

/// Scanning a concatenation is scanning the first part, then the second from
/// where the first left off.
#[verifier::rlimit(100)]
proof fn lemma_scan_append(
    xs: Seq<Hittable>, ys: Seq<Hittable>, r: Ray, t0: int, cur: int,
    best: Option<HitRecord>, s: u64,
)
    requires
        best is Some ==> cur == best->0.t,
    ensures
        ({
            let h1 = scan_hit(xs, r, t0, cur, best, s);
            let m1 = match h1.0 {
                Some(rec) => rec.t as int,
                None => cur,
            };
            scan_hit(xs + ys, r, t0, cur, best, s) == scan_hit(ys, r, t0, m1, h1.0, h1.1)
        }),
    decreases xs.len(),
{
    reveal_with_fuel(scan_hit, 2);
    if xs.len() == 0 {
        assert(xs + ys =~= ys);
        match best {
            Some(rec) => {
                assert(scan_hit(xs, r, t0, cur, best, s) == (best, s));
            },
            None => {},
        }
    } else {
        assert((xs + ys)[0] == xs[0]);
        assert((xs + ys).drop_first() =~= xs.drop_first() + ys);
        let h = hittable_hit_spec(xs[0], r, t0, cur, s);
        match h.0 {
            Some(rec) => {
                lemma_scan_some(xs.drop_first(), r, t0, rec.t as int, rec, h.1);
                lemma_scan_append(xs.drop_first(), ys, r, t0, rec.t as int, Some(rec), h.1);
            },
            None => {
                lemma_scan_append(xs.drop_first(), ys, r, t0, cur, best, h.1);
            },
        }
    }
}

/// Seeding the scan with a best-so-far record (at its own upper bound) is
/// the same as scanning fresh and falling back to that record on a miss.
proof fn lemma_scan_seed(
    ys: Seq<Hittable>, r: Ray, t0: int, rec0: HitRecord, s: u64,
)
    ensures
        ({
            let h = scan_hit(ys, r, t0, rec0.t as int, None, s);
            scan_hit(ys, r, t0, rec0.t as int, Some(rec0), s)
                == (match h.0 {
                    Some(rec) => Some(rec),
                    None => Some(rec0),
                }, h.1)
        }),
    decreases ys.len(),
{
    reveal_with_fuel(scan_hit, 2);
    if ys.len() == 0 {
    } else {
        let h = hittable_hit_spec(ys[0], r, t0, rec0.t as int, s);
        match h.0 {
            Some(rec) => {
                lemma_scan_some(ys.drop_first(), r, t0, rec.t as int, rec, h.1);
            },
            None => {
                lemma_scan_seed(ys.drop_first(), r, t0, rec0, h.1);
            },
        }
    }
}

/// Law: BVH traversal is equivalent to the exhaustive linear scan. For any
/// ray, any query interval and any sampler state, a spheres-only tree whose
/// boxes prune safely (the tree invariant: a missed node box means every
/// leaf beneath misses) answers exactly what the flat closest-hit scan over
/// its leaves answers — the same record and the same state.
pub proof fn lemma_bvh_matches_linear_scan(b: BVH, r: Ray, t0: int, t1: int, s: u64)
    requires
        spheres_only(b),
        prunes_safely(b, r),
    ensures
        bvh_hit_spec(b, r, t0, t1, s) == scan_hit(bvh_leaves(b), r, t0, t1, None, s),
    decreases b,
{
    reveal_with_fuel(scan_hit, 3);
    lemma_leaves_are_spheres(b);
    if !slab_hit(b.bbox.minimum, b.bbox.maximum, r, t0, t1) {
        assert forall|i: int, s2: u64| 0 <= i < bvh_leaves(b).len()
            implies (#[trigger] hittable_hit_spec(bvh_leaves(b)[i], r, t0, t1, s2)).0
                is None by {
        }
        lemma_scan_all_miss(bvh_leaves(b), r, t0, t1, None, s);
    } else {
        match b.tree {
            BVHNode::Leaf(o) => {
                let h = hittable_hit_spec(*o, r, t0, t1, s);
                assert(bvh_leaves(b)[0] == *o);
                assert(bvh_leaves(b).drop_first().len() == 0);
                match h.0 {
                    Some(rec) => {},
                    None => {},
                }
            },
            BVHNode::Branch { left, right } => {
                let ls = bvh_leaves(*left);
                let rs = bvh_leaves(*right);
                assert(bvh_leaves(b) =~= ls + rs);
                lemma_bvh_matches_linear_scan(*left, r, t0, t1, s);
                let hl = bvh_hit_spec(*left, r, t0, t1, s);
                let t2 = match hl.0 {
                    Some(rec) => rec.t as int,
                    None => t1,
                };
                lemma_bvh_matches_linear_scan(*right, r, t0, t2, hl.1);
                let hr = bvh_hit_spec(*right, r, t0, t2, hl.1);
                lemma_scan_append(ls, rs, r, t0, t1, None, s);
                match hl.0 {
                    Some(rec0) => {
                        lemma_scan_seed(rs, r, t0, rec0, hl.1);
                    },
                    None => {},
                }
            },
        }
    }
}


/// Every leaf is a static sphere whose accepted roots, for this ray, land
/// strictly inside the query interval and strictly inside the sphere's box
/// on every axis the ray moves along. These are the measure-zero boundary
/// inputs (floored roots at an interval end; grazing an axis pole) that the
/// equivalence law excludes.
pub open spec fn leaves_clean(b: BVH, r: Ray) -> bool
    decreases b
{
    match b.tree {
        BVHNode::Leaf(o) => match *o {
            Hittable::Sphere(sp) => sp.is_static
                && (forall|t0: int, t1: int| #![trigger sphere_hit_t(sp, r, t0, t1)]
                    match sphere_hit_t(sp, r, t0, t1) {
                        Some(tt) => t0 < tt && tt < t1
                            && sphere_hit_interior(sp, r, t0, t1),
                        None => true,
                    }),
            _ => false,
        },
        BVHNode::Branch { left, right } => leaves_clean(*left, r) && leaves_clean(*right, r),
    }
}

/// Clean static sphere leaves under covering boxes prune safely: a missed
/// leaf box means the sphere misses, by `lemma_sphere_hit_in_box` and the
/// slab test's monotonicity in the box.
pub proof fn lemma_clean_leaves_prune(b: BVH, r: Ray, tb0: int, tb1: int)
    requires
        bvh_wf(b),
        bvh_covers_boxes(b, tb0, tb1),
        leaves_clean(b, r),
        ray_wf(r),
    ensures
        leaf_prunes(b, r),
    decreases b,
{
    match b.tree {
        BVHNode::Leaf(o) => {
            assert forall|t0: int, t1: int, s: u64|
                !slab_hit(b.bbox.minimum, b.bbox.maximum, r, t0, t1)
                implies (#[trigger] hittable_hit_spec(*o, r, t0, t1, s)).0 is None by {
                let sp = (*o)->Sphere_0;
                assert((*o) is Sphere);
                assert(hittable_wf(*o));
                assert(sphere_wf(sp));
                if hittable_hit_spec(*o, r, t0, t1, s).0 is Some {
                    assert(sphere_hit_t(sp, r, t0, t1) is Some);
                    lemma_sphere_hit_in_box(sp, r, t0, t1);
                    let small = sphere_box_at(sp, r.time as int);
                    assert(small == sphere_bbox_spec(sp, tb0, tb1));
                    assert(contains_box(b.bbox, small));
                    lemma_slab_hit_monotone(small, b.bbox, r, t0, t1);
                    assert(false);
                }
            }
        },
        BVHNode::Branch { left, right } => {
            lemma_clean_leaves_prune(*left, r, tb0, tb1);
            lemma_clean_leaves_prune(*right, r, tb0, tb1);
        },
    }
}

/// Law: BVH traversal equals the exhaustive linear scan on the trees the
/// constructor builds. For a well-formed spheres-only tree whose boxes cover
/// its leaves — exactly what `BVH::new` ensures — and a ray whose hits never
/// land exactly on an interval end or an axis pole of a sphere, the
/// traversal answers the same record and sampler state as the flat
/// closest-hit scan over the leaves, for every interval and state.
pub proof fn lemma_built_bvh_matches_scan(
    b: BVH, r: Ray, t0: int, t1: int, s: u64, tb0: int, tb1: int,
)
    requires
        bvh_wf(b),
        bvh_covers_boxes(b, tb0, tb1),
        spheres_only(b),
        leaves_clean(b, r),
        ray_wf(r),
    ensures
        bvh_hit_spec(b, r, t0, t1, s) == scan_hit(bvh_leaves(b), r, t0, t1, None, s),
{
    lemma_clean_leaves_prune(b, r, tb0, tb1);
    lemma_prunes_from_leaves(b, r);
    lemma_bvh_matches_linear_scan(b, r, t0, t1, s);
}


/// The surrounding box of two halves' union boxes is the union box of the
/// whole: it bounds every object's box and attains each bound on one.
#[verifier::rlimit(100)]
proof fn lemma_branch_union(
    bb: Aabb, lt: BVH, rt: BVH, whole: Seq<Hittable>, left_seq: Seq<Hittable>,
    right_seq: Seq<Hittable>, orig: Seq<Hittable>, t0: int, t1: int,
)
    requires
        bb == surrounding_spec(lt.bbox, rt.bbox),
        whole == left_seq + right_seq,
        whole.to_multiset() == orig.to_multiset(),
        boxes_bounded_by(lt.bbox, left_seq, t0, t1),
        box_bounds_attained(lt.bbox, left_seq, t0, t1),
        boxes_bounded_by(rt.bbox, right_seq, t0, t1),
        box_bounds_attained(rt.bbox, right_seq, t0, t1),
    ensures
        boxes_bounded_by(bb, orig, t0, t1),
        box_bounds_attained(bb, orig, t0, t1),
{
    broadcast use vstd::seq_lib::group_to_multiset_ensures;
    assert forall|i: int| 0 <= i < orig.len()
        implies (match #[trigger] hittable_bbox_spec(orig[i], t0, t1) {
            Some(ob2) => contains_box(bb, ob2),
            None => false,
        }) by {
        assert(orig.contains(orig[i]));
        vstd::seq_lib::to_multiset_contains(orig, orig[i]);
        vstd::seq_lib::to_multiset_contains(whole, orig[i]);
        assert(whole.contains(orig[i]));
        let j = choose|j: int| 0 <= j < whole.len() && whole[j] == orig[i];
        if j < left_seq.len() {
            assert(whole[j] == left_seq[j]);
        } else {
            assert(whole[j] == right_seq[j - left_seq.len()]);
        }
    }
    assert(exists|i: int| 0 <= i < orig.len()
        && match #[trigger] hittable_bbox_spec(orig[i], t0, t1) {
            Some(ob2) => ob2.minimum.x == bb.minimum.x,
            None => false,
        }) by {
        if lt.bbox.minimum.x <= rt.bbox.minimum.x {
            assert(bb.minimum.x == lt.bbox.minimum.x);
            let jj = choose|jj: int| 0 <= jj < left_seq.len()
                && match #[trigger] hittable_bbox_spec(left_seq[jj], t0, t1) {
                    Some(ob2) => ob2.minimum.x == lt.bbox.minimum.x,
                    None => false,
                };
            let w = whole[jj];
            assert(w == left_seq[jj]);
            assert(whole.contains(w));
            vstd::seq_lib::to_multiset_contains(whole, w);
            vstd::seq_lib::to_multiset_contains(orig, w);
            assert(orig.contains(w));
            let kk = choose|kk: int| 0 <= kk < orig.len() && orig[kk] == w;
            assert(match hittable_bbox_spec(orig[kk], t0, t1) {
                Some(ob2) => ob2.minimum.x == bb.minimum.x,
                None => false,
            });
        } else {
            assert(bb.minimum.x == rt.bbox.minimum.x);
            let jj = choose|jj: int| 0 <= jj < right_seq.len()
                && match #[trigger] hittable_bbox_spec(right_seq[jj], t0, t1) {
                    Some(ob2) => ob2.minimum.x == rt.bbox.minimum.x,
                    None => false,
                };
            let w = whole[jj + left_seq.len()];
            assert(w == right_seq[jj]);
            assert(whole.contains(w));
            vstd::seq_lib::to_multiset_contains(whole, w);
            vstd::seq_lib::to_multiset_contains(orig, w);
            assert(orig.contains(w));
            let kk = choose|kk: int| 0 <= kk < orig.len() && orig[kk] == w;
            assert(match hittable_bbox_spec(orig[kk], t0, t1) {
                Some(ob2) => ob2.minimum.x == bb.minimum.x,
                None => false,
            });
        }
    }
    assert(exists|i: int| 0 <= i < orig.len()
        && match #[trigger] hittable_bbox_spec(orig[i], t0, t1) {
            Some(ob2) => ob2.minimum.y == bb.minimum.y,
            None => false,
        }) by {
        if lt.bbox.minimum.y <= rt.bbox.minimum.y {
            assert(bb.minimum.y == lt.bbox.minimum.y);
            let jj = choose|jj: int| 0 <= jj < left_seq.len()
                && match #[trigger] hittable_bbox_spec(left_seq[jj], t0, t1) {
                    Some(ob2) => ob2.minimum.y == lt.bbox.minimum.y,
                    None => false,
                };
            let w = whole[jj];
            assert(w == left_seq[jj]);
            assert(whole.contains(w));
            vstd::seq_lib::to_multiset_contains(whole, w);
            vstd::seq_lib::to_multiset_contains(orig, w);
            assert(orig.contains(w));
            let kk = choose|kk: int| 0 <= kk < orig.len() && orig[kk] == w;
            assert(match hittable_bbox_spec(orig[kk], t0, t1) {
                Some(ob2) => ob2.minimum.y == bb.minimum.y,
                None => false,
            });
        } else {
            assert(bb.minimum.y == rt.bbox.minimum.y);
            let jj = choose|jj: int| 0 <= jj < right_seq.len()
                && match #[trigger] hittable_bbox_spec(right_seq[jj], t0, t1) {
                    Some(ob2) => ob2.minimum.y == rt.bbox.minimum.y,
                    None => false,
                };
            let w = whole[jj + left_seq.len()];
            assert(w == right_seq[jj]);
            assert(whole.contains(w));
            vstd::seq_lib::to_multiset_contains(whole, w);
            vstd::seq_lib::to_multiset_contains(orig, w);
            assert(orig.contains(w));
            let kk = choose|kk: int| 0 <= kk < orig.len() && orig[kk] == w;
            assert(match hittable_bbox_spec(orig[kk], t0, t1) {
                Some(ob2) => ob2.minimum.y == bb.minimum.y,
                None => false,
            });
        }
    }
    assert(exists|i: int| 0 <= i < orig.len()
        && match #[trigger] hittable_bbox_spec(orig[i], t0, t1) {
            Some(ob2) => ob2.minimum.z == bb.minimum.z,
            None => false,
        }) by {
        if lt.bbox.minimum.z <= rt.bbox.minimum.z {
            assert(bb.minimum.z == lt.bbox.minimum.z);
            let jj = choose|jj: int| 0 <= jj < left_seq.len()
                && match #[trigger] hittable_bbox_spec(left_seq[jj], t0, t1) {
                    Some(ob2) => ob2.minimum.z == lt.bbox.minimum.z,
                    None => false,
                };
            let w = whole[jj];
            assert(w == left_seq[jj]);
            assert(whole.contains(w));
            vstd::seq_lib::to_multiset_contains(whole, w);
            vstd::seq_lib::to_multiset_contains(orig, w);
            assert(orig.contains(w));
            let kk = choose|kk: int| 0 <= kk < orig.len() && orig[kk] == w;
            assert(match hittable_bbox_spec(orig[kk], t0, t1) {
                Some(ob2) => ob2.minimum.z == bb.minimum.z,
                None => false,
            });
        } else {
            assert(bb.minimum.z == rt.bbox.minimum.z);
            let jj = choose|jj: int| 0 <= jj < right_seq.len()
                && match #[trigger] hittable_bbox_spec(right_seq[jj], t0, t1) {
                    Some(ob2) => ob2.minimum.z == rt.bbox.minimum.z,
                    None => false,
                };
            let w = whole[jj + left_seq.len()];
            assert(w == right_seq[jj]);
            assert(whole.contains(w));
            vstd::seq_lib::to_multiset_contains(whole, w);
            vstd::seq_lib::to_multiset_contains(orig, w);
            assert(orig.contains(w));
            let kk = choose|kk: int| 0 <= kk < orig.len() && orig[kk] == w;
            assert(match hittable_bbox_spec(orig[kk], t0, t1) {
                Some(ob2) => ob2.minimum.z == bb.minimum.z,
                None => false,
            });
        }
    }
    assert(exists|i: int| 0 <= i < orig.len()
        && match #[trigger] hittable_bbox_spec(orig[i], t0, t1) {
            Some(ob2) => ob2.maximum.x == bb.maximum.x,
            None => false,
        }) by {
        if lt.bbox.maximum.x >= rt.bbox.maximum.x {
            assert(bb.maximum.x == lt.bbox.maximum.x);
            let jj = choose|jj: int| 0 <= jj < left_seq.len()
                && match #[trigger] hittable_bbox_spec(left_seq[jj], t0, t1) {
                    Some(ob2) => ob2.maximum.x == lt.bbox.maximum.x,
                    None => false,
                };
            let w = whole[jj];
            assert(w == left_seq[jj]);
            assert(whole.contains(w));
            vstd::seq_lib::to_multiset_contains(whole, w);
            vstd::seq_lib::to_multiset_contains(orig, w);
            assert(orig.contains(w));
            let kk = choose|kk: int| 0 <= kk < orig.len() && orig[kk] == w;
            assert(match hittable_bbox_spec(orig[kk], t0, t1) {
                Some(ob2) => ob2.maximum.x == bb.maximum.x,
                None => false,
            });
        } else {
            assert(bb.maximum.x == rt.bbox.maximum.x);
            let jj = choose|jj: int| 0 <= jj < right_seq.len()
                && match #[trigger] hittable_bbox_spec(right_seq[jj], t0, t1) {
                    Some(ob2) => ob2.maximum.x == rt.bbox.maximum.x,
                    None => false,
                };
            let w = whole[jj + left_seq.len()];
            assert(w == right_seq[jj]);
            assert(whole.contains(w));
            vstd::seq_lib::to_multiset_contains(whole, w);
            vstd::seq_lib::to_multiset_contains(orig, w);
            assert(orig.contains(w));
            let kk = choose|kk: int| 0 <= kk < orig.len() && orig[kk] == w;
            assert(match hittable_bbox_spec(orig[kk], t0, t1) {
                Some(ob2) => ob2.maximum.x == bb.maximum.x,
                None => false,
            });
        }
    }
    assert(exists|i: int| 0 <= i < orig.len()
        && match #[trigger] hittable_bbox_spec(orig[i], t0, t1) {
            Some(ob2) => ob2.maximum.y == bb.maximum.y,
            None => false,
        }) by {
        if lt.bbox.maximum.y >= rt.bbox.maximum.y {
            assert(bb.maximum.y == lt.bbox.maximum.y);
            let jj = choose|jj: int| 0 <= jj < left_seq.len()
                && match #[trigger] hittable_bbox_spec(left_seq[jj], t0, t1) {
                    Some(ob2) => ob2.maximum.y == lt.bbox.maximum.y,
                    None => false,
                };
            let w = whole[jj];
            assert(w == left_seq[jj]);
            assert(whole.contains(w));
            vstd::seq_lib::to_multiset_contains(whole, w);
            vstd::seq_lib::to_multiset_contains(orig, w);
            assert(orig.contains(w));
            let kk = choose|kk: int| 0 <= kk < orig.len() && orig[kk] == w;
            assert(match hittable_bbox_spec(orig[kk], t0, t1) {
                Some(ob2) => ob2.maximum.y == bb.maximum.y,
                None => false,
            });
        } else {
            assert(bb.maximum.y == rt.bbox.maximum.y);
            let jj = choose|jj: int| 0 <= jj < right_seq.len()
                && match #[trigger] hittable_bbox_spec(right_seq[jj], t0, t1) {
                    Some(ob2) => ob2.maximum.y == rt.bbox.maximum.y,
                    None => false,
                };
            let w = whole[jj + left_seq.len()];
            assert(w == right_seq[jj]);
            assert(whole.contains(w));
            vstd::seq_lib::to_multiset_contains(whole, w);
            vstd::seq_lib::to_multiset_contains(orig, w);
            assert(orig.contains(w));
            let kk = choose|kk: int| 0 <= kk < orig.len() && orig[kk] == w;
            assert(match hittable_bbox_spec(orig[kk], t0, t1) {
                Some(ob2) => ob2.maximum.y == bb.maximum.y,
                None => false,
            });
        }
    }
    assert(exists|i: int| 0 <= i < orig.len()
        && match #[trigger] hittable_bbox_spec(orig[i], t0, t1) {
            Some(ob2) => ob2.maximum.z == bb.maximum.z,
            None => false,
        }) by {
        if lt.bbox.maximum.z >= rt.bbox.maximum.z {
            assert(bb.maximum.z == lt.bbox.maximum.z);
            let jj = choose|jj: int| 0 <= jj < left_seq.len()
                && match #[trigger] hittable_bbox_spec(left_seq[jj], t0, t1) {
                    Some(ob2) => ob2.maximum.z == lt.bbox.maximum.z,
                    None => false,
                };
            let w = whole[jj];
            assert(w == left_seq[jj]);
            assert(whole.contains(w));
            vstd::seq_lib::to_multiset_contains(whole, w);
            vstd::seq_lib::to_multiset_contains(orig, w);
            assert(orig.contains(w));
            let kk = choose|kk: int| 0 <= kk < orig.len() && orig[kk] == w;
            assert(match hittable_bbox_spec(orig[kk], t0, t1) {
                Some(ob2) => ob2.maximum.z == bb.maximum.z,
                None => false,
            });
        } else {
            assert(bb.maximum.z == rt.bbox.maximum.z);
            let jj = choose|jj: int| 0 <= jj < right_seq.len()
                && match #[trigger] hittable_bbox_spec(right_seq[jj], t0, t1) {
                    Some(ob2) => ob2.maximum.z == rt.bbox.maximum.z,
                    None => false,
                };
            let w = whole[jj + left_seq.len()];
            assert(w == right_seq[jj]);
            assert(whole.contains(w));
            vstd::seq_lib::to_multiset_contains(whole, w);
            vstd::seq_lib::to_multiset_contains(orig, w);
            assert(orig.contains(w));
            let kk = choose|kk: int| 0 <= kk < orig.len() && orig[kk] == w;
            assert(match hittable_bbox_spec(orig[kk], t0, t1) {
                Some(ob2) => ob2.maximum.z == bb.maximum.z,
                None => false,
            });
        }
    }
}

} // verus!
