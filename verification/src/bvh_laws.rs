//! Why a walk of the hierarchy finds what a scan of the list finds.
use vstd::prelude::*;
use std::sync::Arc;
use crate::aabb::{lemma_encloses_transitive, lemma_union_encloses, Aabb};
use crate::bvh::{all_bounded, preferred, sorted_along, tightened, BvhChild, BvhNode};
use crate::hittable::{closer, closest, hits_of, lemma_closest_is_nearest, HitRecord, Hittable};
use crate::ray::Ray;
use crate::scalar::Scalar;

verus! {

/// The place of a hit's parameter in the order of the numbers.
pub open spec fn parameter<'a>(hit: Option<HitRecord<'a>>) -> Option<int> {
    match hit {
        Some(h) => Some(h.t.rank()),
        None => None,
    }
}

/// The lower of two places, where there are two.
pub open spec fn lower(a: Option<int>, b: Option<int>) -> Option<int> {
    match (a, b) {
        (Some(x), Some(y)) => Some(
            if y < x {
                y
            } else {
                x
            },
        ),
        (Some(_), None) => a,
        (None, _) => b,
    }
}

/// A place, if it is not above a bound.
pub open spec fn capped(place: Option<int>, bound: int) -> Option<int> {
    match place {
        Some(x) => if x <= bound {
            place
        } else {
            None
        },
        None => None,
    }
}

/// The object reports the nearest of its points: between `t_min` and
/// `t_max` it reports a point with a finite parameter in that interval or
/// nothing, and between `t_min` and a smaller upper bound it reports the
/// same point if the bound admits it, and nothing if not.
pub open spec fn reports_nearest<T: Hittable>(
    object: Arc<T>,
    ray: Ray,
    t_min: Scalar,
    t_max: Scalar,
) -> bool {
    let widest = object.hit_spec(ray, t_min, t_max);
    &&& widest is Some ==> widest->0.t.finite()
    &&& forall|bound: Scalar|
        bound.at_most(t_max) ==> #[trigger] object.hit_spec(ray, t_min, bound) == (if widest
            is Some && widest->0.t.at_most(bound) {
            widest
        } else {
            None
        })
}

/// Every object of the list reports the nearest of its points.
pub open spec fn all_report_nearest<T: Hittable>(
    objects: Seq<Arc<T>>,
    ray: Ray,
    t_min: Scalar,
    t_max: Scalar,
) -> bool {
    forall|i: int| 0 <= i < objects.len() ==> reports_nearest(#[trigger] objects[i], ray, t_min, t_max)
}

/// Every object of the list has a box whose minimum is at most its maximum.
pub open spec fn all_boxes_wf<T: Hittable>(
    objects: Seq<Arc<T>>,
    start_time: Scalar,
    end_time: Scalar,
) -> bool {
    forall|i: int|
        0 <= i < objects.len() ==> {
            let bounds = (#[trigger] objects[i]).bounding_box_spec(start_time, end_time);
            bounds is Some && bounds->0.wf()
        }
}

/// The slab test errs on the safe side only: a ray that misses a box hits
/// no object of the list whose box lies within that box.
pub open spec fn conservative<T: Hittable>(
    slab: spec_fn(Aabb, Scalar, Scalar) -> bool,
    objects: Seq<Arc<T>>,
    ray: Ray,
    t_min: Scalar,
    start_time: Scalar,
    end_time: Scalar,
) -> bool {
    forall|around: Aabb, bound: Scalar, i: int|
        0 <= i < objects.len() && around.encloses(
            (#[trigger] objects[i]).bounding_box_spec(start_time, end_time)->0,
        ) && !#[trigger] slab(around, t_min, bound) ==> objects[i].hit_spec(ray, t_min, bound)
            is None
}

impl<T: Hittable> BvhChild<T> {
    /// The box of every node under the child is the union of the boxes of
    /// that node's children.
    pub open spec fn boxed(self, start_time: Scalar, end_time: Scalar) -> bool
        decreases self,
    {
        match self {
            BvhChild::Object(_) => true,
            BvhChild::Node(node) => node.boxed(start_time, end_time),
        }
    }
}

impl<T: Hittable> BvhNode<T> {
    /// The box of the node, and of every node under it, is the union of the
    /// boxes of that node's children.
    pub open spec fn boxed(self, start_time: Scalar, end_time: Scalar) -> bool
        decreases self,
    {
        &&& self.bounding_box == self.left.bounds(start_time, end_time).joined(
            self.right.bounds(start_time, end_time),
        )
        &&& self.left.boxed(start_time, end_time)
        &&& self.right.boxed(start_time, end_time)
    }
}

/// The nearest hit of a list has a finite parameter.
proof fn lemma_closest_finite<'a>(hits: Seq<Option<HitRecord<'a>>>)
    ensures
        closest(hits) matches Some(h) ==> h.t.finite(),
{
    lemma_closest_is_nearest(hits);
}

/// The nearest hit of two lists in a row is at the lower of the places of
/// their nearest hits.
proof fn lemma_closest_concat<'a>(a: Seq<Option<HitRecord<'a>>>, b: Seq<Option<HitRecord<'a>>>)
    ensures
        parameter(closest(a + b)) == lower(parameter(closest(a)), parameter(closest(b))),
    decreases b.len(),
{
    if b.len() == 0 {
        assert(a + b == a);
    } else {
        let front = b.drop_last();
        assert((a + b).drop_last() == a + front);
        assert((a + b).last() == b.last());
        lemma_closest_concat(a, front);
        lemma_closest_finite(a + front);
        lemma_closest_finite(front);
        lemma_closest_finite(a);
    }
}

/// What the objects report between `t_min` and a bound under `t_max`: the
/// nearest hit is the one between `t_min` and `t_max`, if the bound admits
/// it.
proof fn lemma_closest_capped<T: Hittable>(
    objects: Seq<Arc<T>>,
    ray: Ray,
    t_min: Scalar,
    t_max: Scalar,
    bound: Scalar,
)
    requires
        all_report_nearest(objects, ray, t_min, t_max),
        bound.at_most(t_max),
    ensures
        parameter(closest(hits_of(objects, ray, t_min, bound))) == capped(
            parameter(closest(hits_of(objects, ray, t_min, t_max))),
            bound.rank(),
        ),
    decreases objects.len(),
{
    let narrow = hits_of(objects, ray, t_min, bound);
    let wide = hits_of(objects, ray, t_min, t_max);
    if objects.len() > 0 {
        let front = objects.drop_last();
        assert(narrow.drop_last() == hits_of(front, ray, t_min, bound));
        assert(wide.drop_last() == hits_of(front, ray, t_min, t_max));
        assert forall|i: int| 0 <= i < front.len() implies reports_nearest(
            #[trigger] front[i],
            ray,
            t_min,
            t_max,
        ) by {
            assert(front[i] == objects[i]);
        }
        lemma_closest_capped(front, ray, t_min, t_max, bound);
        lemma_closest_finite(narrow.drop_last());
        lemma_closest_finite(wide.drop_last());
        let last = objects.last();
        assert(reports_nearest(last, ray, t_min, t_max));
        assert(t_max.at_most(t_max));
        assert(narrow.last() == last.hit_spec(ray, t_min, bound));
        assert(wide.last() == last.hit_spec(ray, t_min, t_max));
    }
}

/// Where no object reports a hit, the list has no nearest hit.
proof fn lemma_closest_of_none<'a>(hits: Seq<Option<HitRecord<'a>>>)
    requires
        forall|i: int| 0 <= i < hits.len() ==> (#[trigger] hits[i]) is None,
    ensures
        closest(hits) is None,
{
    lemma_closest_is_nearest(hits);
}

/// If every object of one list is in a second list, the second list has a
/// nearest hit wherever the first has one, and it is no farther.
proof fn lemma_closest_of_more_objects<T: Hittable>(
    a: Seq<Arc<T>>,
    b: Seq<Arc<T>>,
    ray: Ray,
    t_min: Scalar,
    t_max: Scalar,
)
    requires
        forall|x: Arc<T>| a.contains(x) ==> b.contains(x),
    ensures
        closest(hits_of(a, ray, t_min, t_max)) matches Some(h) ==> closest(
            hits_of(b, ray, t_min, t_max),
        ) is Some && closest(hits_of(b, ray, t_min, t_max))->0.t.rank() <= h.t.rank(),
{
    let ha = hits_of(a, ray, t_min, t_max);
    let hb = hits_of(b, ray, t_min, t_max);
    lemma_closest_is_nearest(ha);
    lemma_closest_is_nearest(hb);
    if let Some(h) = closest(ha) {
        let i = choose|i: int| 0 <= i < ha.len() && #[trigger] ha[i] == Some(h);
        assert(a.contains(a[i]));
        let j = choose|j: int| 0 <= j < b.len() && b[j] == a[i];
        assert(hb[j] == ha[i]);
        assert(hb[j] is Some && hb[j]->0.t.finite());
    }
}

/// Two lists with the same objects, in whatever order and number, have
/// their nearest hits at the same place.
pub proof fn lemma_closest_of_same_objects<T: Hittable>(
    a: Seq<Arc<T>>,
    b: Seq<Arc<T>>,
    ray: Ray,
    t_min: Scalar,
    t_max: Scalar,
)
    requires
        forall|x: Arc<T>| a.contains(x) <==> b.contains(x),
    ensures
        parameter(closest(hits_of(a, ray, t_min, t_max))) == parameter(
            closest(hits_of(b, ray, t_min, t_max)),
        ),
{
    lemma_closest_of_more_objects(a, b, ray, t_min, t_max);
    lemma_closest_of_more_objects(b, a, ray, t_min, t_max);
}

/// What holds of the objects of a list holds of those of its two parts.
proof fn lemma_parts<T: Hittable>(
    left: Seq<Arc<T>>,
    right: Seq<Arc<T>>,
    slab: spec_fn(Aabb, Scalar, Scalar) -> bool,
    ray: Ray,
    t_min: Scalar,
    t_max: Scalar,
    start_time: Scalar,
    end_time: Scalar,
)
    requires
        all_boxes_wf(left + right, start_time, end_time),
        all_report_nearest(left + right, ray, t_min, t_max),
        conservative(slab, left + right, ray, t_min, start_time, end_time),
    ensures
        all_boxes_wf(left, start_time, end_time),
        all_boxes_wf(right, start_time, end_time),
        all_report_nearest(left, ray, t_min, t_max),
        all_report_nearest(right, ray, t_min, t_max),
        conservative(slab, left, ray, t_min, start_time, end_time),
        conservative(slab, right, ray, t_min, start_time, end_time),
{
    let all = left + right;
    assert forall|i: int| 0 <= i < left.len() implies #[trigger] left[i] == all[i] by {}
    assert forall|i: int| 0 <= i < right.len() implies #[trigger] right[i] == all[left.len() + i] by {}
    assert forall|i: int| 0 <= i < left.len() implies {
        let bounds = (#[trigger] left[i]).bounding_box_spec(start_time, end_time);
        bounds is Some && bounds->0.wf()
    } by {
        assert(left[i] == all[i]);
    }
    assert forall|i: int| 0 <= i < right.len() implies {
        let bounds = (#[trigger] right[i]).bounding_box_spec(start_time, end_time);
        bounds is Some && bounds->0.wf()
    } by {
        assert(right[i] == all[left.len() + i]);
    }
    assert forall|i: int| 0 <= i < left.len() implies reports_nearest(
        #[trigger] left[i],
        ray,
        t_min,
        t_max,
    ) by {
        assert(left[i] == all[i]);
    }
    assert forall|i: int| 0 <= i < right.len() implies reports_nearest(
        #[trigger] right[i],
        ray,
        t_min,
        t_max,
    ) by {
        assert(right[i] == all[left.len() + i]);
    }
    assert forall|around: Aabb, bound: Scalar, i: int|
        0 <= i < left.len() && around.encloses(
            (#[trigger] left[i]).bounding_box_spec(start_time, end_time)->0,
        ) && !#[trigger] slab(around, t_min, bound) implies left[i].hit_spec(ray, t_min, bound)
        is None by {
        assert(left[i] == all[i]);
    }
    assert forall|around: Aabb, bound: Scalar, i: int|
        0 <= i < right.len() && around.encloses(
            (#[trigger] right[i]).bounding_box_spec(start_time, end_time)->0,
        ) && !#[trigger] slab(around, t_min, bound) implies right[i].hit_spec(ray, t_min, bound)
        is None by {
        assert(right[i] == all[left.len() + i]);
    }
}

/// The box of a child lies around the box of every object under it.
proof fn lemma_child_box_encloses<T: Hittable>(
    child: BvhChild<T>,
    start_time: Scalar,
    end_time: Scalar,
)
    requires
        child.boxed(start_time, end_time),
        all_boxes_wf(child.leaves(), start_time, end_time),
    ensures
        child.bounds(start_time, end_time).wf(),
        forall|i: int|
            0 <= i < child.leaves().len() ==> child.bounds(start_time, end_time).encloses(
                (#[trigger] child.leaves()[i]).bounding_box_spec(start_time, end_time)->0,
            ),
    decreases child,
{
    match child {
        BvhChild::Object(object) => {
            assert(child.leaves()[0] == object);
        },
        BvhChild::Node(node) => {
            lemma_box_encloses(*node, start_time, end_time);
        },
    }
}

/// In a hierarchy whose boxes are the unions of the boxes beneath them, the
/// box of a node lies around the box of every object under the node.
pub proof fn lemma_box_encloses<T: Hittable>(node: BvhNode<T>, start_time: Scalar, end_time: Scalar)
    requires
        node.boxed(start_time, end_time),
        all_boxes_wf(node.leaves(), start_time, end_time),
    ensures
        node.bounding_box.wf(),
        forall|i: int|
            0 <= i < node.leaves().len() ==> node.bounding_box.encloses(
                (#[trigger] node.leaves()[i]).bounding_box_spec(start_time, end_time)->0,
            ),
    decreases node,
{
    let left = node.left.leaves();
    let right = node.right.leaves();
    let all = node.leaves();
    assert forall|i: int| 0 <= i < left.len() implies {
        let bounds = (#[trigger] left[i]).bounding_box_spec(start_time, end_time);
        bounds is Some && bounds->0.wf()
    } by {
        assert(left[i] == all[i]);
    }
    assert forall|i: int| 0 <= i < right.len() implies {
        let bounds = (#[trigger] right[i]).bounding_box_spec(start_time, end_time);
        bounds is Some && bounds->0.wf()
    } by {
        assert(right[i] == all[left.len() + i]);
    }
    lemma_child_box_encloses(node.left, start_time, end_time);
    lemma_child_box_encloses(node.right, start_time, end_time);
    let lb = node.left.bounds(start_time, end_time);
    let rb = node.right.bounds(start_time, end_time);
    lemma_union_encloses(lb, rb);
    assert forall|i: int| 0 <= i < all.len() implies node.bounding_box.encloses(
        (#[trigger] all[i]).bounding_box_spec(start_time, end_time)->0,
    ) by {
        let inner = all[i].bounding_box_spec(start_time, end_time)->0;
        if i < left.len() {
            assert(all[i] == left[i]);
            lemma_encloses_transitive(node.bounding_box, lb, inner);
        } else {
            assert(all[i] == right[i - left.len()]);
            lemma_encloses_transitive(node.bounding_box, rb, inner);
        }
    }
}

/// A query of a child, with an upper bound under `t_max`, answers with a
/// hit at the place of the nearest hit of the objects under the child.
proof fn lemma_child_query_finds_nearest<T: Hittable>(
    child: BvhChild<T>,
    slab: spec_fn(Aabb, Scalar, Scalar) -> bool,
    ray: Ray,
    t_min: Scalar,
    t_max: Scalar,
    bound: Scalar,
    start_time: Scalar,
    end_time: Scalar,
)
    requires
        child.boxed(start_time, end_time),
        all_boxes_wf(child.leaves(), start_time, end_time),
        all_report_nearest(child.leaves(), ray, t_min, t_max),
        conservative(slab, child.leaves(), ray, t_min, start_time, end_time),
        bound.at_most(t_max),
    ensures
        parameter(child.query(slab, ray, t_min, bound)) == parameter(
            closest(hits_of(child.leaves(), ray, t_min, bound)),
        ),
        child.query(slab, ray, t_min, bound) matches Some(h) ==> h.t.finite() && h.t.at_most(bound),
    decreases child, 0nat,
{
    match child {
        BvhChild::Object(object) => {
            let hits = hits_of(child.leaves(), ray, t_min, bound);
            assert(child.leaves()[0] == object);
            assert(reports_nearest(object, ray, t_min, t_max));
            assert(hits.len() == 1);
            assert(hits.last() == object.hit_spec(ray, t_min, bound));
            assert(hits.drop_last().len() == 0);
            assert(closest(hits) == closer(closest(hits.drop_last()), hits.last()));
        },
        BvhChild::Node(node) => {
            lemma_query_finds_nearest(*node, slab, ray, t_min, t_max, bound, start_time, end_time);
        },
    }
}

/// A query of a hierarchy, with an upper bound under `t_max`, answers with
/// a hit at the place of the nearest hit of the objects under it, provided
/// that the boxes of the hierarchy are the unions of the boxes beneath
/// them, that every object reports the nearest of its points, and that the
/// slab test errs on the safe side only.
pub proof fn lemma_query_finds_nearest<T: Hittable>(
    node: BvhNode<T>,
    slab: spec_fn(Aabb, Scalar, Scalar) -> bool,
    ray: Ray,
    t_min: Scalar,
    t_max: Scalar,
    bound: Scalar,
    start_time: Scalar,
    end_time: Scalar,
)
    requires
        node.boxed(start_time, end_time),
        all_boxes_wf(node.leaves(), start_time, end_time),
        all_report_nearest(node.leaves(), ray, t_min, t_max),
        conservative(slab, node.leaves(), ray, t_min, start_time, end_time),
        bound.at_most(t_max),
    ensures
        parameter(node.query(slab, ray, t_min, bound)) == parameter(
            closest(hits_of(node.leaves(), ray, t_min, bound)),
        ),
        node.query(slab, ray, t_min, bound) matches Some(h) ==> h.t.finite() && h.t.at_most(bound),
    decreases node, 1nat,
{
    let left = node.left.leaves();
    let right = node.right.leaves();
    let all = node.leaves();
    let hits = hits_of(all, ray, t_min, bound);
    lemma_parts(left, right, slab, ray, t_min, t_max, start_time, end_time);
    if !slab(node.bounding_box, t_min, bound) {
        lemma_box_encloses(node, start_time, end_time);
        assert forall|i: int| 0 <= i < hits.len() implies (#[trigger] hits[i]) is None by {
            assert(node.bounding_box.encloses(all[i].bounding_box_spec(start_time, end_time)->0));
        }
        lemma_closest_of_none(hits);
    } else {
        let found_left = node.left.query(slab, ray, t_min, bound);
        lemma_child_query_finds_nearest(
            node.left,
            slab,
            ray,
            t_min,
            t_max,
            bound,
            start_time,
            end_time,
        );
        let tighter = tightened(found_left, bound);
        assert(tighter.at_most(t_max));
        assert(tighter.at_most(bound));
        let found_right = node.right.query(slab, ray, t_min, tighter);
        lemma_child_query_finds_nearest(
            node.right,
            slab,
            ray,
            t_min,
            t_max,
            tighter,
            start_time,
            end_time,
        );
        lemma_closest_capped(right, ray, t_min, t_max, tighter);
        lemma_closest_capped(right, ray, t_min, t_max, bound);
        assert(hits == hits_of(left, ray, t_min, bound) + hits_of(right, ray, t_min, bound));
        lemma_closest_concat(hits_of(left, ray, t_min, bound), hits_of(right, ray, t_min, bound));
        assert(node.query(slab, ray, t_min, bound) == preferred(found_right, found_left));
    }
}

/// A hierarchy that arranges a list has the unions of its children's boxes
/// for boxes, and the objects under it are the objects of the list.
pub proof fn lemma_arranged<T: Hittable>(
    node: BvhNode<T>,
    list: Seq<Arc<T>>,
    start_time: Scalar,
    end_time: Scalar,
)
    requires
        list.len() > 0,
        node.arranges(list, start_time, end_time),
    ensures
        node.boxed(start_time, end_time),
        forall|x: Arc<T>| node.leaves().contains(x) <==> list.contains(x),
    decreases node,
{
    broadcast use vstd::seq_lib::group_to_multiset_ensures;

    let (axis, sorted) = choose|axis: int, sorted: Seq<Arc<T>>|
        {
            &&& #[trigger] sorted_along(sorted, list, axis, start_time, end_time)
            &&& if sorted.len() == 1 {
                &&& node.left == BvhChild::Object(sorted[0])
                &&& node.right == BvhChild::Object(sorted[0])
            } else if sorted.len() == 2 {
                &&& node.left == BvhChild::Object(sorted[0])
                &&& node.right == BvhChild::Object(sorted[1])
            } else {
                let middle = sorted.len() as int / 2;
                &&& node.left matches BvhChild::Node(left)
                &&& node.right matches BvhChild::Node(right)
                &&& left.arranges(sorted.subrange(0, middle), start_time, end_time)
                &&& right.arranges(
                    sorted.subrange(middle, sorted.len() as int),
                    start_time,
                    end_time,
                )
            }
        };
    assert(sorted.to_multiset().len() == list.to_multiset().len());
    assert(sorted.len() == list.len());
    assert forall|x: Arc<T>| sorted.contains(x) <==> list.contains(x) by {
        assert(sorted.to_multiset().count(x) == list.to_multiset().count(x));
    }
    let leaves = node.leaves();
    let under_left = node.left.leaves();
    let under_right = node.right.leaves();
    if sorted.len() == 1 {
        assert(leaves == seq![sorted[0], sorted[0]]);
        assert forall|x: Arc<T>| leaves.contains(x) <==> sorted.contains(x) by {
            if leaves.contains(x) {
                assert(x == sorted[0]);
            }
            if sorted.contains(x) {
                assert(x == leaves[0]);
            }
        }
    } else if sorted.len() == 2 {
        assert(leaves == seq![sorted[0], sorted[1]]);
        assert forall|x: Arc<T>| leaves.contains(x) <==> sorted.contains(x) by {
            if leaves.contains(x) {
                assert(x == sorted[0] || x == sorted[1]);
            }
            if sorted.contains(x) {
                assert(x == leaves[0] || x == leaves[1]);
            }
        }
    } else {
        let middle = sorted.len() as int / 2;
        let front = sorted.subrange(0, middle);
        let back = sorted.subrange(middle, sorted.len() as int);
        let left = node.left->Node_0;
        let right = node.right->Node_0;
        lemma_arranged(*left, front, start_time, end_time);
        lemma_arranged(*right, back, start_time, end_time);
        assert(sorted == front + back);
        assert forall|x: Arc<T>| leaves.contains(x) <==> sorted.contains(x) by {
            if leaves.contains(x) {
                let i = choose|i: int| 0 <= i < leaves.len() && leaves[i] == x;
                if i < under_left.len() {
                    assert(under_left[i] == x);
                    assert(under_left.contains(x));
                    assert(left.leaves().contains(x));
                    assert(front.contains(x));
                    let j = choose|j: int| 0 <= j < front.len() && front[j] == x;
                    assert(sorted[j] == x);
                } else {
                    assert(under_right[i - under_left.len()] == x);
                    assert(under_right.contains(x));
                    assert(right.leaves().contains(x));
                    assert(back.contains(x));
                    let j = choose|j: int| 0 <= j < back.len() && back[j] == x;
                    assert(sorted[middle + j] == x);
                }
            }
            if sorted.contains(x) {
                let j = choose|j: int| 0 <= j < sorted.len() && sorted[j] == x;
                if j < middle {
                    assert(front[j] == x);
                    assert(front.contains(x));
                    assert(left.leaves().contains(x));
                    let i = choose|i: int| 0 <= i < under_left.len() && under_left[i] == x;
                    assert(leaves[i] == x);
                } else {
                    assert(back[j - middle] == x);
                    assert(back.contains(x));
                    assert(right.leaves().contains(x));
                    let i = choose|i: int| 0 <= i < under_right.len() && under_right[i] == x;
                    assert(leaves[under_left.len() + i] == x);
                }
            }
        }
    }
}

/// A query of the hierarchy over a list of objects answers with a hit at
/// the place of the hit that a scan of the list finds: there is a hit if
/// and only if the scan finds one, and both have the same parameter.
///
/// This holds for objects that have boxes and report the nearest of their
/// points, a slab test that errs on the safe side only, and an upper bound
/// that is a number.
pub proof fn lemma_hierarchy_matches_scan<T: Hittable>(
    node: BvhNode<T>,
    list: Seq<Arc<T>>,
    slab: spec_fn(Aabb, Scalar, Scalar) -> bool,
    ray: Ray,
    t_min: Scalar,
    t_max: Scalar,
    start_time: Scalar,
    end_time: Scalar,
)
    requires
        list.len() > 0,
        node.arranges(list, start_time, end_time),
        all_boxes_wf(list, start_time, end_time),
        all_report_nearest(list, ray, t_min, t_max),
        conservative(slab, list, ray, t_min, start_time, end_time),
        !t_max.nan(),
    ensures
        parameter(node.query(slab, ray, t_min, t_max)) == parameter(
            closest(hits_of(list, ray, t_min, t_max)),
        ),
{
    lemma_arranged(node, list, start_time, end_time);
    let leaves = node.leaves();
    assert forall|i: int| 0 <= i < leaves.len() implies list.contains(#[trigger] leaves[i]) by {
        assert(leaves.contains(leaves[i]));
    }
    assert forall|i: int| 0 <= i < leaves.len() implies {
        let bounds = (#[trigger] leaves[i]).bounding_box_spec(start_time, end_time);
        bounds is Some && bounds->0.wf()
    } by {
        let j = choose|j: int| 0 <= j < list.len() && list[j] == leaves[i];
        assert(list[j] == leaves[i]);
    }
    assert forall|i: int| 0 <= i < leaves.len() implies reports_nearest(
        #[trigger] leaves[i],
        ray,
        t_min,
        t_max,
    ) by {
        let j = choose|j: int| 0 <= j < list.len() && list[j] == leaves[i];
        assert(list[j] == leaves[i]);
    }
    assert forall|around: Aabb, bound: Scalar, i: int|
        0 <= i < leaves.len() && around.encloses(
            (#[trigger] leaves[i]).bounding_box_spec(start_time, end_time)->0,
        ) && !#[trigger] slab(around, t_min, bound) implies leaves[i].hit_spec(ray, t_min, bound)
        is None by {
        let j = choose|j: int| 0 <= j < list.len() && list[j] == leaves[i];
        assert(list[j] == leaves[i]);
    }
    lemma_query_finds_nearest(node, slab, ray, t_min, t_max, t_max, start_time, end_time);
    lemma_closest_of_same_objects(leaves, list, ray, t_min, t_max);
}

/// A query of a hierarchy makes up no hit: what it answers with is what
/// one of the objects under the hierarchy reported, for some upper bound.
pub proof fn lemma_query_returns_a_report<T: Hittable>(
    node: BvhNode<T>,
    slab: spec_fn(Aabb, Scalar, Scalar) -> bool,
    ray: Ray,
    t_min: Scalar,
    t_max: Scalar,
)
    ensures
        node.query(slab, ray, t_min, t_max) matches Some(h) ==> exists|i: int, bound: Scalar|
            0 <= i < node.leaves().len() && #[trigger] node.leaves()[i].hit_spec(
                ray,
                t_min,
                bound,
            ) == Some(h),
    decreases node,
{
    let answer = node.query(slab, ray, t_min, t_max);
    if answer is Some && slab(node.bounding_box, t_min, t_max) {
        let under_left = node.left.leaves();
        let leaves = node.leaves();
        let left = node.left.query(slab, ray, t_min, t_max);
        let bound = tightened(left, t_max);
        let right = node.right.query(slab, ray, t_min, bound);
        if right is Some {
            match node.right {
                BvhChild::Object(object) => {
                    assert(leaves[under_left.len() as int] == object);
                    assert(leaves[under_left.len() as int].hit_spec(ray, t_min, bound) == answer);
                },
                BvhChild::Node(inner) => {
                    lemma_query_returns_a_report(*inner, slab, ray, t_min, bound);
                    let (i, b) = choose|i: int, b: Scalar|
                        0 <= i < inner.leaves().len() && #[trigger] inner.leaves()[i].hit_spec(
                            ray,
                            t_min,
                            b,
                        ) == answer;
                    assert(leaves[under_left.len() + i] == inner.leaves()[i]);
                    assert(leaves[under_left.len() + i].hit_spec(ray, t_min, b) == answer);
                },
            }
        } else {
            match node.left {
                BvhChild::Object(object) => {
                    assert(leaves[0] == object);
                    assert(leaves[0].hit_spec(ray, t_min, t_max) == answer);
                },
                BvhChild::Node(inner) => {
                    lemma_query_returns_a_report(*inner, slab, ray, t_min, t_max);
                    let (i, b) = choose|i: int, b: Scalar|
                        0 <= i < inner.leaves().len() && #[trigger] inner.leaves()[i].hit_spec(
                            ray,
                            t_min,
                            b,
                        ) == answer;
                    assert(leaves[i] == inner.leaves()[i]);
                    assert(leaves[i].hit_spec(ray, t_min, b) == answer);
                },
            }
        }
    }
}

} // verus!
