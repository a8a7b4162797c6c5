//! The bounding volume hierarchy: a binary tree of boxes over the objects
//! of a scene, built by sorting and halving, and walked with one slab test
//! per box.
use vstd::prelude::*;
use std::sync::Arc;
use rand::rngs::StdRng;
use crate::aabb::Aabb;
use crate::hittable::{HitRecord, Hittable};
use crate::random::random_up_to;
use crate::ray::Ray;
use crate::scalar::Scalar;

verus! {

/// A second handle to a shared object, from `Arc::clone`: it points to the
/// same object as the first.
#[verifier::external_body]
pub(crate) fn share<T>(object: &Arc<T>) -> (handle: Arc<T>)
    ensures
        handle == *object,
{
    Arc::clone(object)
}

/// What the entries with one key hold, in the order of the entries.
pub open spec fn with_key<T>(entries: Seq<(i64, T)>, key: int) -> Seq<T>
    decreases entries.len(),
{
    if entries.len() == 0 {
        Seq::empty()
    } else {
        let front = with_key(entries.drop_last(), key);
        if entries.last().0 == key {
            front.push(entries.last().1)
        } else {
            front
        }
    }
}

/// Sorts keyed entries by their keys with the stable sort of the standard
/// library, `slice::sort_by_key`: afterwards the same entries stand in
/// ascending order of their keys, and entries with one key stand in the
/// order in which they stood before.
#[verifier::external_body]
pub(crate) fn sort_by_key<T>(entries: &mut Vec<(i64, T)>)
    ensures
        final(entries)@.to_multiset() == old(entries)@.to_multiset(),
        forall|i: int, j: int|
            0 <= i < j < final(entries)@.len() ==> final(entries)@[i].0 <= final(entries)@[j].0,
        forall|key: int| #[trigger] with_key(final(entries)@, key) == with_key(old(entries)@, key),
{
    entries.sort_by_key(|entry| entry.0)
}

/// A child of a node of the hierarchy: one object of the scene, or a
/// smaller hierarchy.
pub enum BvhChild<T> {
    Object(Arc<T>),
    Node(Box<BvhNode<T>>),
}

/// A node of the hierarchy, with a box around all that lies under it.
pub struct BvhNode<T> {
    pub left: BvhChild<T>,
    pub right: BvhChild<T>,
    pub bounding_box: Aabb,
}

/// The place of an object along an axis: that of the minimum corner of its
/// box, in the total order of the doubles.
pub open spec fn sort_key<T: Hittable>(
    object: Arc<T>,
    axis: int,
    start_time: Scalar,
    end_time: Scalar,
) -> int {
    object.bounding_box_spec(start_time, end_time)->0.minimum.component(axis).total_rank()
}

/// Every object has a box.
pub open spec fn all_bounded<T: Hittable>(
    list: Seq<Arc<T>>,
    start_time: Scalar,
    end_time: Scalar,
) -> bool {
    forall|i: int|
        0 <= i < list.len() ==> (#[trigger] list[i]).bounding_box_spec(start_time, end_time)
            is Some
}

/// The objects at one place along an axis, in the order of the list.
pub open spec fn at_place<T: Hittable>(
    list: Seq<Arc<T>>,
    axis: int,
    start_time: Scalar,
    end_time: Scalar,
    place: int,
) -> Seq<Arc<T>>
    decreases list.len(),
{
    if list.len() == 0 {
        Seq::empty()
    } else {
        let front = at_place(list.drop_last(), axis, start_time, end_time, place);
        if sort_key(list.last(), axis, start_time, end_time) == place {
            front.push(list.last())
        } else {
            front
        }
    }
}

/// `sorted` holds the objects of `list`, in ascending order along `axis`;
/// objects at one place stand in the order of the list.
pub open spec fn sorted_along<T: Hittable>(
    sorted: Seq<Arc<T>>,
    list: Seq<Arc<T>>,
    axis: int,
    start_time: Scalar,
    end_time: Scalar,
) -> bool {
    &&& 0 <= axis < 3
    &&& sorted.to_multiset() == list.to_multiset()
    &&& forall|i: int, j: int|
        0 <= i < j < sorted.len() ==> sort_key(sorted[i], axis, start_time, end_time) <= sort_key(
            sorted[j],
            axis,
            start_time,
            end_time,
        )
    &&& forall|place: int| #[trigger]
        at_place(sorted, axis, start_time, end_time, place) == at_place(
            list,
            axis,
            start_time,
            end_time,
            place,
        )
}

impl<T: Hittable> BvhChild<T> {
    /// The box of the child: that of the object, or the one the node holds.
    pub open spec fn bounds(self, start_time: Scalar, end_time: Scalar) -> Aabb {
        match self {
            BvhChild::Object(object) => object.bounding_box_spec(start_time, end_time)->0,
            BvhChild::Node(node) => node.bounding_box,
        }
    }

    /// The objects under the child, from left to right.
    pub open spec fn leaves(self) -> Seq<Arc<T>>
        decreases self,
    {
        match self {
            BvhChild::Object(object) => seq![object],
            BvhChild::Node(node) => node.leaves(),
        }
    }
}

impl<T: Hittable> BvhNode<T> {
    /// The objects under the node, from left to right. An object that
    /// stands alone under a node is both of its children and comes twice.
    pub open spec fn leaves(self) -> Seq<Arc<T>>
        decreases self,
    {
        self.left.leaves() + self.right.leaves()
    }

    /// The node is a hierarchy over the objects of `list`: its box is the
    /// union of the boxes of its children, and its children divide the
    /// objects, sorted along one of the three axes, at the middle. A single
    /// object is both children, two objects are one child each, and of more
    /// the first half, rounded down, is arranged under the left child and
    /// the rest under the right.
    pub open spec fn arranges(self, list: Seq<Arc<T>>, start_time: Scalar, end_time: Scalar) -> bool
        decreases self,
    {
        &&& self.bounding_box == self.left.bounds(start_time, end_time).joined(
            self.right.bounds(start_time, end_time),
        )
        &&& exists|axis: int, sorted: Seq<Arc<T>>|
            {
                &&& #[trigger] sorted_along(sorted, list, axis, start_time, end_time)
                &&& if sorted.len() == 1 {
                    &&& self.left == BvhChild::Object(sorted[0])
                    &&& self.right == BvhChild::Object(sorted[0])
                } else if sorted.len() == 2 {
                    &&& self.left == BvhChild::Object(sorted[0])
                    &&& self.right == BvhChild::Object(sorted[1])
                } else {
                    let middle = sorted.len() as int / 2;
                    &&& self.left matches BvhChild::Node(left)
                    &&& self.right matches BvhChild::Node(right)
                    &&& left.arranges(sorted.subrange(0, middle), start_time, end_time)
                    &&& right.arranges(
                        sorted.subrange(middle, sorted.len() as int),
                        start_time,
                        end_time,
                    )
                }
            }
    }

    /// The objects of `list` stand under the node in the order of the list:
    /// a single object is both children, two objects are one child each,
    /// and of more the first half, rounded down, stands under the left
    /// child and the rest under the right.
    pub open spec fn holds_in_order(self, list: Seq<Arc<T>>) -> bool
        decreases self,
    {
        if list.len() == 1 {
            &&& self.left == BvhChild::Object(list[0])
            &&& self.right == BvhChild::Object(list[0])
        } else if list.len() == 2 {
            &&& self.left == BvhChild::Object(list[0])
            &&& self.right == BvhChild::Object(list[1])
        } else {
            let middle = list.len() as int / 2;
            &&& self.left matches BvhChild::Node(left)
            &&& self.right matches BvhChild::Node(right)
            &&& left.holds_in_order(list.subrange(0, middle))
            &&& right.holds_in_order(list.subrange(middle, list.len() as int))
        }
    }

    /// Sorts the objects along an axis, by the minimum corner of their
    /// boxes in the total order of the doubles. Objects at one place keep
    /// their order.
    pub fn sort_along(list: &Vec<Arc<T>>, axis: usize, start_time: Scalar, end_time: Scalar) -> (sorted:
        Vec<Arc<T>>)
        requires
            axis < 3,
            all_bounded(list@, start_time, end_time),
        ensures
            sorted_along(sorted@, list@, axis as int, start_time, end_time),
    {
        let mut keyed: Vec<(i64, Arc<T>)> = Vec::new();
        let mut i: usize = 0;
        while i < list.len()
            invariant
                axis < 3,
                all_bounded(list@, start_time, end_time),
                i <= list@.len(),
                keyed@.len() == i,
                forall|k: int|
                    0 <= k < i ==> (#[trigger] keyed@[k]).1 == list@[k] && keyed@[k].0 == sort_key(
                        list@[k],
                        axis as int,
                        start_time,
                        end_time,
                    ),
            decreases list@.len() - i,
        {
            let bounds = list[i].bounding_box(start_time, end_time).unwrap();
            keyed.push((bounds.minimum.axis(axis).total_key(), share(&list[i])));
            i += 1;
        }
        let ghost unsorted = keyed@;
        sort_by_key(&mut keyed);
        proof {
            broadcast use vstd::seq_lib::group_to_multiset_ensures;

            assert forall|k: int| 0 <= k < keyed@.len() implies (#[trigger] keyed@[k]).0
                == sort_key(keyed@[k].1, axis as int, start_time, end_time) by {
                assert(keyed@.to_multiset().count(keyed@[k]) > 0);
                assert(unsorted.contains(keyed@[k]));
            }
            assert(keyed@.to_multiset().len() == unsorted.to_multiset().len());
        }
        let mut sorted: Vec<Arc<T>> = Vec::new();
        let mut k: usize = 0;
        while k < keyed.len()
            invariant
                k <= keyed@.len(),
                sorted@.len() == k,
                forall|m: int| 0 <= m < k ==> (#[trigger] sorted@[m]) == keyed@[m].1,
            decreases keyed@.len() - k,
        {
            sorted.push(share(&keyed[k].1));
            k += 1;
        }
        proof {
            assert(unsorted.map_values(|e: (i64, Arc<T>)| e.1) == list@);
            assert(keyed@.map_values(|e: (i64, Arc<T>)| e.1) == sorted@);
            lemma_map_keeps_multiset(unsorted, keyed@);
            assert forall|place: int| #[trigger]
                at_place(sorted@, axis as int, start_time, end_time, place) == at_place(
                    list@,
                    axis as int,
                    start_time,
                    end_time,
                    place,
                ) by {
                lemma_with_key_is_at_place(unsorted, list@, axis as int, start_time, end_time, place);
                lemma_with_key_is_at_place(keyed@, sorted@, axis as int, start_time, end_time, place);
            }
        }
        sorted
    }

    /// Builds the hierarchy over a list of objects. At every level an axis
    /// is drawn at random, the objects are sorted along it, and the list is
    /// cut in the middle; the recursion ends at one or two objects. The
    /// list is sorted in place: it holds the same objects afterwards, in
    /// the order in which they stand under the hierarchy.
    pub fn new(list: &mut Vec<Arc<T>>, start_time: Scalar, end_time: Scalar, rng: &mut StdRng) -> (node:
        Self)
        requires
            old(list)@.len() > 0,
            all_bounded(old(list)@, start_time, end_time),
        ensures
            node.arranges(old(list)@, start_time, end_time),
            node.holds_in_order(final(list)@),
            final(list)@.to_multiset() == old(list)@.to_multiset(),
        decreases old(list)@.len(),
    {
        let axis = random_up_to(rng, 2);
        let mut sorted = Self::sort_along(list, axis, start_time, end_time);
        let ghost order = sorted@;
        proof {
            lemma_sorted_keeps_boxes(order, list@, axis as int, start_time, end_time);
        }
        let n = sorted.len();
        let (left, right) = if n == 1 {
            (BvhChild::Object(share(&sorted[0])), BvhChild::Object(share(&sorted[0])))
        } else if n == 2 {
            (BvhChild::Object(share(&sorted[0])), BvhChild::Object(share(&sorted[1])))
        } else {
            let mut back = sorted.split_off(n / 2);
            let ghost front = sorted@;
            let ghost rest = back@;
            let left = Self::new(&mut sorted, start_time, end_time, rng);
            let right = Self::new(&mut back, start_time, end_time, rng);
            proof {
                broadcast use vstd::seq_lib::group_to_multiset_ensures;

                assert(order == front + rest);
                vstd::seq_lib::lemma_multiset_commutative(front, rest);
                vstd::seq_lib::lemma_multiset_commutative(sorted@, back@);
                assert(sorted@.to_multiset().len() == front.to_multiset().len());
                assert(back@.to_multiset().len() == rest.to_multiset().len());
                assert((sorted@ + back@).subrange(0, n as int / 2) == sorted@);
                assert((sorted@ + back@).subrange(n as int / 2, n as int) == back@);
            }
            sorted.append(&mut back);
            (BvhChild::Node(Box::new(left)), BvhChild::Node(Box::new(right)))
        };
        let left_box = left.bounding_box(start_time, end_time);
        let right_box = right.bounding_box(start_time, end_time);
        let node = BvhNode { left, right, bounding_box: left_box.union(&right_box) };
        proof {
            assert(sorted_along(order, list@, axis as int, start_time, end_time));
        }
        *list = sorted;
        node
    }
}

impl<T: Hittable> BvhNode<T> {
    /// The box around everything under the node. It was made for the
    /// interval of time that the hierarchy was built for.
    pub fn bounding_box(&self, _start_time: Scalar, _end_time: Scalar) -> (b: Option<Aabb>)
        ensures
            b == Some(self.bounding_box),
    {
        Some(self.bounding_box)
    }
}

impl<T: Hittable> BvhChild<T> {
    /// The box of the child.
    pub fn bounding_box(&self, start_time: Scalar, end_time: Scalar) -> (b: Aabb)
        requires
            self matches BvhChild::Object(object) ==> object.bounding_box_spec(
                start_time,
                end_time,
            ) is Some,
        ensures
            b == self.bounds(start_time, end_time),
    {
        match self {
            BvhChild::Object(object) => object.bounding_box(start_time, end_time).unwrap(),
            BvhChild::Node(node) => node.bounding_box,
        }
    }
}

/// Objects that all have boxes still have them after sorting, and there are
/// as many of them.
proof fn lemma_sorted_keeps_boxes<T: Hittable>(
    sorted: Seq<Arc<T>>,
    list: Seq<Arc<T>>,
    axis: int,
    start_time: Scalar,
    end_time: Scalar,
)
    requires
        sorted_along(sorted, list, axis, start_time, end_time),
        all_bounded(list, start_time, end_time),
    ensures
        sorted.len() == list.len(),
        all_bounded(sorted, start_time, end_time),
        forall|from: int, to: int|
            0 <= from <= to <= sorted.len() ==> all_bounded(
                #[trigger] sorted.subrange(from, to),
                start_time,
                end_time,
            ),
{
    broadcast use vstd::seq_lib::group_to_multiset_ensures;

    assert(sorted.to_multiset().len() == list.to_multiset().len());
    assert forall|i: int| 0 <= i < sorted.len() implies (#[trigger] sorted[i]).bounding_box_spec(
        start_time,
        end_time,
    ) is Some by {
        assert(sorted.to_multiset().count(sorted[i]) > 0);
        assert(list.contains(sorted[i]));
    }
    assert forall|from: int, to: int| 0 <= from <= to <= sorted.len() implies all_bounded(
        #[trigger] sorted.subrange(from, to),
        start_time,
        end_time,
    ) by {
        let part = sorted.subrange(from, to);
        assert forall|i: int| 0 <= i < part.len() implies (#[trigger] part[i]).bounding_box_spec(
            start_time,
            end_time,
        ) is Some by {
            assert(part[i] == sorted[from + i]);
        }
    }
}

/// Where every entry holds an object under the key of its place along an
/// axis, the entries with one key hold the objects at that place.
proof fn lemma_with_key_is_at_place<T: Hittable>(
    entries: Seq<(i64, Arc<T>)>,
    objects: Seq<Arc<T>>,
    axis: int,
    start_time: Scalar,
    end_time: Scalar,
    place: int,
)
    requires
        entries.len() == objects.len(),
        forall|k: int|
            0 <= k < entries.len() ==> (#[trigger] entries[k]).1 == objects[k] && entries[k].0
                == sort_key(objects[k], axis, start_time, end_time),
    ensures
        with_key(entries, place) == at_place(objects, axis, start_time, end_time, place),
    decreases entries.len(),
{
    if entries.len() > 0 {
        let n = entries.len() - 1;
        assert(entries[n].1 == objects[n]);
        assert forall|k: int| 0 <= k < n implies (#[trigger] entries.drop_last()[k]).1
            == objects.drop_last()[k] && entries.drop_last()[k].0 == sort_key(
            objects.drop_last()[k],
            axis,
            start_time,
            end_time,
        ) by {
            assert(entries.drop_last()[k] == entries[k]);
        }
        lemma_with_key_is_at_place(
            entries.drop_last(),
            objects.drop_last(),
            axis,
            start_time,
            end_time,
            place,
        );
    }
}

/// Taking the object out of every entry keeps the objects the same, however
/// the entries are ordered.
proof fn lemma_map_keeps_multiset<T>(a: Seq<(i64, Arc<T>)>, b: Seq<(i64, Arc<T>)>)
    requires
        a.to_multiset() == b.to_multiset(),
    ensures
        a.map_values(|e: (i64, Arc<T>)| e.1).to_multiset() == b.map_values(
            |e: (i64, Arc<T>)| e.1,
        ).to_multiset(),
    decreases a.len(),
{
    broadcast use vstd::seq_lib::group_to_multiset_ensures;

    let f = |e: (i64, Arc<T>)| e.1;
    if a.len() == 0 {
        assert(a.to_multiset().len() == a.len());
        assert(b.to_multiset().len() == b.len());
        assert(a.map_values(f) == b.map_values(f));
    } else {
        let x = a.last();
        assert(a.to_multiset().count(x) > 0);
        assert(b.contains(x));
        let i = choose|i: int| 0 <= i < b.len() && b[i] == x;
        let a1 = a.drop_last();
        let b1 = b.remove(i);
        assert(a1.to_multiset() == a.to_multiset().remove(x)) by {
            assert(a1 == a.remove(a.len() - 1));
        }
        assert(b1.to_multiset() == b.to_multiset().remove(x));
        lemma_map_keeps_multiset(a1, b1);
        assert(a.map_values(f) == a1.map_values(f).push(f(x)));
        assert(b.map_values(f) == b1.map_values(f).insert(i, f(x)));
        assert(b1.map_values(f).insert(i, f(x)).to_multiset() == b1.map_values(
            f,
        ).to_multiset().insert(f(x)));
        assert(a1.map_values(f).push(f(x)).to_multiset() == a1.map_values(
            f,
        ).to_multiset().insert(f(x)));
    }
}


/// The upper bound for the search under the right child, once the left
/// child has answered: the parameter of its hit, or still the bound of the
/// query where it has none.
pub open spec fn tightened<'a>(found: Option<HitRecord<'a>>, t_max: Scalar) -> Scalar {
    match found {
        Some(hit) => hit.t.lesser(t_max),
        None => t_max,
    }
}

/// The answer of a node, from those of its children: that of the right
/// child if it has one, else that of the left.
pub open spec fn preferred<'a>(right: Option<HitRecord<'a>>, left: Option<HitRecord<'a>>) -> Option<
    HitRecord<'a>,
> {
    if right is Some {
        right
    } else {
        left
    }
}

pub fn tighten<'a>(found: &Option<HitRecord<'a>>, t_max: Scalar) -> (bound: Scalar)
    ensures
        bound == tightened(*found, t_max),
{
    match found {
        Some(hit) => hit.t.min(t_max),
        None => t_max,
    }
}

pub fn prefer<'a>(right: Option<HitRecord<'a>>, left: Option<HitRecord<'a>>) -> (answer: Option<
    HitRecord<'a>,
>)
    ensures
        answer == preferred(right, left),
{
    if right.is_some() {
        right
    } else {
        left
    }
}

impl<T: Hittable> BvhNode<T> {
    /// What a query of the hierarchy returns, given what the slab test says
    /// of each box: `slab(b, lo, hi)` tells whether the ray meets the box
    /// `b` between `lo` and `hi`. A node whose box the ray misses answers
    /// nothing. Any other node asks its left child, then its right child
    /// with the upper bound tightened to the left child's hit, and prefers
    /// the answer of the right.
    pub open spec fn query<'a>(
        self,
        slab: spec_fn(Aabb, Scalar, Scalar) -> bool,
        ray: Ray,
        t_min: Scalar,
        t_max: Scalar,
    ) -> Option<HitRecord<'a>>
        decreases self,
    {
        if !slab(self.bounding_box, t_min, t_max) {
            None
        } else {
            let left = match self.left {
                BvhChild::Object(object) => object.hit_spec(ray, t_min, t_max),
                BvhChild::Node(node) => node.query(slab, ray, t_min, t_max),
            };
            let bound = tightened(left, t_max);
            let right = match self.right {
                BvhChild::Object(object) => object.hit_spec(ray, t_min, bound),
                BvhChild::Node(node) => node.query(slab, ray, t_min, bound),
            };
            preferred(right, left)
        }
    }
}

impl<T: Hittable> BvhChild<T> {
    /// What a query of the child returns: the hit of the object, or what
    /// the query of the smaller hierarchy returns.
    pub open spec fn query<'a>(
        self,
        slab: spec_fn(Aabb, Scalar, Scalar) -> bool,
        ray: Ray,
        t_min: Scalar,
        t_max: Scalar,
    ) -> Option<HitRecord<'a>> {
        match self {
            BvhChild::Object(object) => object.hit_spec(ray, t_min, t_max),
            BvhChild::Node(node) => node.query(slab, ray, t_min, t_max),
        }
    }
}

/// A node that a walk has entered and not yet left.
pub struct Frame<'a, T> {
    pub node: &'a BvhNode<T>,
    /// The upper bound with which the node was entered.
    pub t_max: Scalar,
    /// The answer of the left child, once it has come.
    pub left: Option<Option<HitRecord<'a>>>,
}

/// The answer of the whole walk, once the node on top of the stack gets the
/// answer `value` from the child it waits for.
pub open spec fn unwind<'a, T: Hittable>(
    stack: Seq<Frame<'a, T>>,
    value: Option<HitRecord<'a>>,
    slab: spec_fn(Aabb, Scalar, Scalar) -> bool,
    ray: Ray,
    t_min: Scalar,
) -> Option<HitRecord<'a>>
    decreases stack.len(),
{
    if stack.len() == 0 {
        value
    } else {
        let top = stack.last();
        match top.left {
            None => {
                let right = top.node.right.query(slab, ray, t_min, tightened(value, top.t_max));
                unwind(stack.drop_last(), preferred(right, value), slab, ray, t_min)
            },
            Some(left) => unwind(stack.drop_last(), preferred(value, left), slab, ray, t_min),
        }
    }
}

/// The steps that the nodes on the stack still have to take: two for a
/// node that waits for its left child, one for a node that waits for its
/// right child.
pub open spec fn steps_left<'a, T>(stack: Seq<Frame<'a, T>>) -> nat
    decreases stack.len(),
{
    if stack.len() == 0 {
        0
    } else {
        steps_left(stack.drop_last()) + if stack.last().left is None {
            2nat
        } else {
            1nat
        }
    }
}

impl<T: Hittable> BvhChild<T> {
    /// The number of nodes under the child: none under an object.
    pub open spec fn size(self) -> nat
        decreases self,
    {
        match self {
            BvhChild::Object(_) => 0,
            BvhChild::Node(node) => node.size(),
        }
    }
}

impl<T: Hittable> BvhNode<T> {
    /// The number of nodes of the hierarchy, and so of its boxes.
    pub open spec fn size(self) -> nat
        decreases self,
    {
        1 + self.left.size() + self.right.size()
    }
}

/// The boxes that the nodes on the stack may still ask to have tested:
/// those under the right child of every node that waits for its left child.
pub open spec fn tests_waiting<'a, T: Hittable>(stack: Seq<Frame<'a, T>>) -> nat
    decreases stack.len(),
{
    if stack.len() == 0 {
        0
    } else {
        tests_waiting(stack.drop_last()) + if stack.last().left is None {
            stack.last().node.right.size()
        } else {
            0
        }
    }
}

/// A query of the hierarchy, as a walk that stops at every box.
///
/// The walk cannot test a box itself: that takes arithmetic on the ray. It
/// names the box with `slab_test`, the caller makes the test and hands the
/// answer to `advance`, and so on until `slab_test` names no more box; then
/// `found` is the answer of the query. The objects are asked by the walk.
pub struct Traversal<'a, T> {
    pub ray: Ray,
    pub t_min: Scalar,
    pub stack: Vec<Frame<'a, T>>,
    /// The node whose box is to be tested, and the upper bound for it.
    pub pending: Option<(&'a BvhNode<T>, Scalar)>,
    pub found: Option<HitRecord<'a>>,
}

impl<'a, T: Hittable> Traversal<'a, T> {
    /// The answer that the walk will end with, if every box test comes out
    /// as `slab` says.
    pub open spec fn outcome(self, slab: spec_fn(Aabb, Scalar, Scalar) -> bool) -> Option<
        HitRecord<'a>,
    > {
        match self.pending {
            Some((node, t_max)) => unwind(
                self.stack@,
                node.query(slab, self.ray, self.t_min, t_max),
                slab,
                self.ray,
                self.t_min,
            ),
            None => self.found,
        }
    }

    /// The most box tests that the walk may still ask for.
    pub open spec fn tests_left(self) -> nat {
        tests_waiting(self.stack@) + match self.pending {
            Some((node, _)) => node.size(),
            None => 0,
        }
    }

    /// `slab` gives the answer `crossed` to the test that the walk waits
    /// for.
    pub open spec fn agrees(self, slab: spec_fn(Aabb, Scalar, Scalar) -> bool, crossed: bool) -> bool {
        self.pending matches Some((node, t_max)) && slab(node.bounding_box, self.t_min, t_max)
            == crossed
    }

    /// Starts a query at the root of a hierarchy.
    pub fn new(root: &'a BvhNode<T>, ray: &Ray, t_min: Scalar, t_max: Scalar) -> (walk: Self)
        ensures
            walk.ray == *ray,
            walk.t_min == t_min,
            walk.pending == Some((root, t_max)),
            walk.stack@.len() == 0,
            walk.tests_left() == root.size(),
            forall|slab: spec_fn(Aabb, Scalar, Scalar) -> bool| #[trigger]
                walk.outcome(slab) == root.query(slab, *ray, t_min, t_max),
    {
        Traversal { ray: *ray, t_min, stack: Vec::new(), pending: Some((root, t_max)), found: None }
    }

    /// The box that is to be tested next, with the interval to test it on,
    /// or `None` when the walk has ended.
    pub fn slab_test(&self) -> (test: Option<(Aabb, Scalar, Scalar)>)
        ensures
            test == match self.pending {
                Some((node, t_max)) => Some((node.bounding_box, self.t_min, t_max)),
                None => None,
            },
    {
        match self.pending {
            Some((node, t_max)) => Some((node.bounding_box, self.t_min, t_max)),
            None => None,
        }
    }

    /// The answer of the query, once the walk has ended.
    pub fn found(&self) -> (hit: Option<HitRecord<'a>>)
        ensures
            hit == self.found,
            self.pending is None ==> forall|slab: spec_fn(Aabb, Scalar, Scalar) -> bool| #[trigger]
                self.outcome(slab) == hit,
    {
        self.found
    }

    /// Takes the answer of the box test that the walk waited for and goes
    /// on to the next box, or to the end. Whatever the tests still to come
    /// say, the walk ends with the same answer as before, as long as this
    /// test said what it was taken to say. Every step uses up a test: a
    /// walk asks for no more tests than the hierarchy has boxes.
    pub fn advance(&mut self, crossed: bool)
        requires
            old(self).pending is Some,
        ensures
            final(self).ray == old(self).ray,
            final(self).t_min == old(self).t_min,
            forall|slab: spec_fn(Aabb, Scalar, Scalar) -> bool|
                old(self).agrees(slab, crossed) ==> #[trigger] final(self).outcome(slab) == old(
                    self,
                ).outcome(slab),
            final(self).pending is None ==> final(self).stack@.len() == 0,
            final(self).tests_left() < old(self).tests_left(),
    {
        let (node, t_max) = self.pending.unwrap();
        let ghost before = *self;
        let mut value: Option<HitRecord<'a>> = None;
        if crossed {
            self.stack.push(Frame { node, t_max, left: None });
            match &node.left {
                BvhChild::Object(object) => {
                    value = object.hit(&self.ray, self.t_min, t_max);
                },
                BvhChild::Node(next) => {
                    self.pending = Some((&**next, t_max));
                    proof {
                        assert(self.stack@.drop_last() == before.stack@);
                    }
                    return ;
                },
            }
            proof {
                assert(self.stack@.drop_last() == before.stack@);
            }
        }
        loop
            invariant
                before == *old(self),
                tests_waiting(self.stack@) < before.tests_left(),
                self.ray == before.ray,
                self.t_min == before.t_min,
                before.pending is Some,
                forall|slab: spec_fn(Aabb, Scalar, Scalar) -> bool|
                    before.agrees(slab, crossed) ==> #[trigger] unwind(
                        self.stack@,
                        value,
                        slab,
                        self.ray,
                        self.t_min,
                    ) == before.outcome(slab),
            decreases steps_left(self.stack@),
        {
            if self.stack.len() == 0 {
                self.found = value;
                self.pending = None;
                proof {
                    assert forall|slab: spec_fn(Aabb, Scalar, Scalar) -> bool|
                        before.agrees(slab, crossed) implies #[trigger] self.outcome(slab)
                        == before.outcome(slab) by {
                        assert(unwind(self.stack@, value, slab, self.ray, self.t_min)
                            == before.outcome(slab));
                    }
                }
                return ;
            }
            let ghost stack = self.stack@;
            let ghost delivered = value;
            let frame = self.stack.pop().unwrap();
            let ghost rest = self.stack@;
            proof {
                assert(rest == stack.drop_last());
                assert(frame == stack.last());
            }
            match frame.left {
                None => {
                    let bound = tighten(&value, frame.t_max);
                    self.stack.push(Frame { node: frame.node, t_max: frame.t_max, left: Some(value) });
                    proof {
                        assert(self.stack@.drop_last() == rest);
                        assert(self.stack@.last().left == Some(delivered));
                    }
                    match &frame.node.right {
                        BvhChild::Object(object) => {
                            value = object.hit(&self.ray, self.t_min, bound);
                        },
                        BvhChild::Node(next) => {
                            self.pending = Some((&**next, bound));
                            proof {
                                assert forall|slab: spec_fn(Aabb, Scalar, Scalar) -> bool|
                                    before.agrees(slab, crossed) implies #[trigger] self.outcome(
                                    slab,
                                ) == before.outcome(slab) by {
                                    assert(unwind(stack, delivered, slab, self.ray, self.t_min)
                                        == before.outcome(slab));
                                }
                            }
                            return ;
                        },
                    }
                    proof {
                        assert forall|slab: spec_fn(Aabb, Scalar, Scalar) -> bool|
                            before.agrees(slab, crossed) implies #[trigger] unwind(
                            self.stack@,
                            value,
                            slab,
                            self.ray,
                            self.t_min,
                        ) == before.outcome(slab) by {
                            assert(unwind(stack, delivered, slab, self.ray, self.t_min)
                                == before.outcome(slab));
                        }
                    }
                },
                Some(left) => {
                    value = prefer(value, left);
                    proof {
                        assert forall|slab: spec_fn(Aabb, Scalar, Scalar) -> bool|
                            before.agrees(slab, crossed) implies #[trigger] unwind(
                            self.stack@,
                            value,
                            slab,
                            self.ray,
                            self.t_min,
                        ) == before.outcome(slab) by {
                            assert(unwind(stack, delivered, slab, self.ray, self.t_min)
                                == before.outcome(slab));
                        }
                    }
                },
            }
        }
    }
}

} // verus!
