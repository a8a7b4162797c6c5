//! What a ray can hit, and which of several hits counts.
use vstd::prelude::*;
use std::sync::Arc;
use crate::aabb::Aabb;
use crate::material::Material;
use crate::ray::Ray;
use crate::scalar::Scalar;
use crate::vec3::{Vec2, Vec3};

verus! {

/// Which side of a surface a ray struck, relative to the outward normal of
/// the geometry.
#[derive(Debug, Clone, Copy, PartialEq, Eq, Structural)]
pub enum Face {
    Front,
    Back,
}

/// The geometry of one intersection of a ray with a surface: what a
/// material needs to know of a hit.
#[derive(Clone, Copy, Debug)]
pub struct Surface {
    /// The ray parameter of the point.
    pub t: Scalar,
    pub point: Vec3,
    /// The surface normal, turned against the ray.
    pub normal: Vec3,
    pub uv: Vec2,
    pub face: Face,
}

/// One intersection of a ray with a surface, and the material found there.
#[derive(Clone, Copy)]
pub struct HitRecord<'a> {
    /// The ray parameter of the point.
    pub t: Scalar,
    pub point: Vec3,
    /// The surface normal, turned against the ray.
    pub normal: Vec3,
    pub uv: Vec2,
    pub face: Face,
    pub material: &'a dyn Material,
}

impl<'a> HitRecord<'a> {
    /// The hit without its material.
    pub open spec fn geometry(self) -> Surface {
        Surface { t: self.t, point: self.point, normal: self.normal, uv: self.uv, face: self.face }
    }

    /// The hit without its material, as `Material::scatter` takes it.
    pub fn surface(&self) -> (s: Surface)
        ensures
            s == self.geometry(),
    {
        Surface { t: self.t, point: self.point, normal: self.normal, uv: self.uv, face: self.face }
    }

    /// The hit at a struck point with the material found there.
    pub fn new(surface: Surface, material: &'a dyn Material) -> (hit: Self)
        ensures
            hit.geometry() == surface,
            hit.material === material,
    {
        HitRecord {
            t: surface.t,
            point: surface.point,
            normal: surface.normal,
            uv: surface.uv,
            face: surface.face,
            material,
        }
    }
}

/// A parameter counts as a hit for a query: it is finite and lies in the
/// interval from `t_min` to `t_max`.
pub open spec fn admits(t: Scalar, t_min: Scalar, t_max: Scalar) -> bool {
    t.finite() && t.between(t_min, t_max)
}

/// Whether a parameter counts as a hit for a query.
pub fn is_admitted(t: Scalar, t_min: Scalar, t_max: Scalar) -> (b: bool)
    ensures
        b == admits(t, t_min, t_max),
{
    t.is_finite() && t.within(t_min, t_max)
}

/// The normal turned against the ray, and the side that was struck.
/// `facing` is the dot product of the ray's direction and the outward
/// normal: negative where the ray comes from outside.
pub open spec fn face_normal(facing: Scalar, outward_normal: Vec3) -> (Vec3, Face) {
    if facing.below(Scalar { bits: 0 }) {
        (outward_normal, Face::Front)
    } else {
        (outward_normal.negated(), Face::Back)
    }
}

/// The struck point at parameter `t`, with the front-face convention
/// applied to the outward normal of the geometry.
pub open spec fn struck(
    t: Scalar,
    point: Vec3,
    outward_normal: Vec3,
    uv: Vec2,
    facing: Scalar,
) -> Surface {
    Surface {
        t,
        point,
        normal: face_normal(facing, outward_normal).0,
        uv,
        face: face_normal(facing, outward_normal).1,
    }
}

/// Applies the front-face convention: a ray that runs against the outward
/// normal struck the front and keeps that normal; any other ray struck the
/// back and gets the opposite normal.
pub fn compute_face_normal(facing: Scalar, outward_normal: Vec3) -> (r: (Vec3, Face))
    ensures
        r == face_normal(facing, outward_normal),
{
    if facing.lt(Scalar::zero()) {
        (outward_normal, Face::Front)
    } else {
        (outward_normal.neg(), Face::Back)
    }
}

/// The turned normal never points along the ray. The dot product of the
/// ray's direction with the turned normal is `facing` where the normal was
/// kept and the negation of `facing` where the normal was negated, since
/// negating a vector negates its dot products; either way it is at most
/// zero, for every `facing` that is a number.
pub proof fn lemma_face_normal_opposes(facing: Scalar, outward_normal: Vec3)
    requires
        !facing.nan(),
    ensures
        face_normal(facing, outward_normal).1 == Face::Front ==> facing.at_most(Scalar { bits: 0 }),
        face_normal(facing, outward_normal).1 == Face::Back ==> facing.negated().at_most(
            Scalar { bits: 0 },
        ),
{
}

/// The better of the best hit so far and one more candidate: the candidate
/// wins only if its parameter is finite and smaller than the best.
pub open spec fn closer<'a>(best: Option<HitRecord<'a>>, next: Option<HitRecord<'a>>) -> Option<
    HitRecord<'a>,
> {
    match next {
        Some(n) => if !n.t.finite() {
            best
        } else {
            match best {
                Some(b) => if n.t.below(b.t) {
                    next
                } else {
                    best
                },
                None => next,
            }
        },
        None => best,
    }
}

/// The hit with the smallest finite parameter, the first of them where
/// several share it. Hits whose parameter is infinite or a NaN never count.
pub open spec fn closest<'a>(hits: Seq<Option<HitRecord<'a>>>) -> Option<HitRecord<'a>>
    decreases hits.len(),
{
    if hits.len() == 0 {
        None
    } else {
        closer(closest(hits.drop_last()), hits.last())
    }
}

/// Something a ray can hit.
///
/// Both queries are functions of their arguments: `hit_spec` and
/// `bounding_box_spec` name what they return, and an implementation defines
/// each as what its method computes.
pub trait Hittable {
    spec fn hit_spec(&self, ray: Ray, t_min: Scalar, t_max: Scalar) -> Option<HitRecord<'_>>;

    spec fn bounding_box_spec(&self, start_time: Scalar, end_time: Scalar) -> Option<Aabb>;

    /// The hit of the ray on this object that counts for the interval from
    /// `t_min` to `t_max`, if there is one.
    fn hit<'a>(&'a self, ray: &Ray, t_min: Scalar, t_max: Scalar) -> (r: Option<HitRecord<'a>>)
        ensures
            r == self.hit_spec(*ray, t_min, t_max),
    ;

    /// A box around everything the object covers between two moments, or
    /// `None` where no box holds it.
    fn bounding_box(&self, start_time: Scalar, end_time: Scalar) -> (r: Option<Aabb>)
        ensures
            r == self.bounding_box_spec(start_time, end_time),
    ;
}

impl<T: Hittable> Hittable for &T {
    open spec fn hit_spec(&self, ray: Ray, t_min: Scalar, t_max: Scalar) -> Option<HitRecord<'_>> {
        (**self).hit_spec(ray, t_min, t_max)
    }

    open spec fn bounding_box_spec(&self, start_time: Scalar, end_time: Scalar) -> Option<Aabb> {
        (**self).bounding_box_spec(start_time, end_time)
    }

    fn hit<'a>(&'a self, ray: &Ray, t_min: Scalar, t_max: Scalar) -> (r: Option<HitRecord<'a>>) {
        T::hit(*self, ray, t_min, t_max)
    }

    fn bounding_box(&self, start_time: Scalar, end_time: Scalar) -> (r: Option<Aabb>) {
        T::bounding_box(*self, start_time, end_time)
    }
}

impl<T: Hittable> Hittable for Box<T> {
    open spec fn hit_spec(&self, ray: Ray, t_min: Scalar, t_max: Scalar) -> Option<HitRecord<'_>> {
        (**self).hit_spec(ray, t_min, t_max)
    }

    open spec fn bounding_box_spec(&self, start_time: Scalar, end_time: Scalar) -> Option<Aabb> {
        (**self).bounding_box_spec(start_time, end_time)
    }

    fn hit<'a>(&'a self, ray: &Ray, t_min: Scalar, t_max: Scalar) -> (r: Option<HitRecord<'a>>) {
        T::hit(&self, ray, t_min, t_max)
    }

    fn bounding_box(&self, start_time: Scalar, end_time: Scalar) -> (r: Option<Aabb>) {
        T::bounding_box(&self, start_time, end_time)
    }
}

impl Hittable for Box<dyn Hittable> {
    open spec fn hit_spec(&self, ray: Ray, t_min: Scalar, t_max: Scalar) -> Option<HitRecord<'_>> {
        (**self).hit_spec(ray, t_min, t_max)
    }

    open spec fn bounding_box_spec(&self, start_time: Scalar, end_time: Scalar) -> Option<Aabb> {
        (**self).bounding_box_spec(start_time, end_time)
    }

    fn hit<'a>(&'a self, ray: &Ray, t_min: Scalar, t_max: Scalar) -> (r: Option<HitRecord<'a>>) {
        (**self).hit(ray, t_min, t_max)
    }

    fn bounding_box(&self, start_time: Scalar, end_time: Scalar) -> (r: Option<Aabb>) {
        (**self).bounding_box(start_time, end_time)
    }
}

impl<T: Hittable> Hittable for Arc<T> {
    open spec fn hit_spec(&self, ray: Ray, t_min: Scalar, t_max: Scalar) -> Option<HitRecord<'_>> {
        (**self).hit_spec(ray, t_min, t_max)
    }

    open spec fn bounding_box_spec(&self, start_time: Scalar, end_time: Scalar) -> Option<Aabb> {
        (**self).bounding_box_spec(start_time, end_time)
    }

    fn hit<'a>(&'a self, ray: &Ray, t_min: Scalar, t_max: Scalar) -> (r: Option<HitRecord<'a>>) {
        T::hit(&self, ray, t_min, t_max)
    }

    fn bounding_box(&self, start_time: Scalar, end_time: Scalar) -> (r: Option<Aabb>) {
        T::bounding_box(&self, start_time, end_time)
    }
}


/// One step of the search for the nearest hit.
pub fn closer_hit<'a>(best: Option<HitRecord<'a>>, next: Option<HitRecord<'a>>) -> (r: Option<
    HitRecord<'a>,
>)
    ensures
        r == closer(best, next),
{
    match next {
        Some(n) => {
            if !n.t.is_finite() {
                best
            } else {
                match best {
                    Some(b) => {
                        if n.t.lt(b.t) {
                            next
                        } else {
                            best
                        }
                    },
                    None => next,
                }
            }
        },
        None => best,
    }
}

/// What each of the objects reports for one query, in their order.
pub open spec fn hits_of<'a, T: Hittable>(
    objects: Seq<T>,
    ray: Ray,
    t_min: Scalar,
    t_max: Scalar,
) -> Seq<Option<HitRecord<'a>>> {
    Seq::new(objects.len(), |i: int| objects[i].hit_spec(ray, t_min, t_max))
}

/// The boxes of the objects, in their order.
pub open spec fn boxes_of<T: Hittable>(
    objects: Seq<T>,
    start_time: Scalar,
    end_time: Scalar,
) -> Seq<Option<Aabb>> {
    Seq::new(objects.len(), |i: int| objects[i].bounding_box_spec(start_time, end_time))
}

/// The box around all of a list of boxes: their union, taken from the first
/// to the last. There is none for an empty list, nor where a box is missing.
pub open spec fn enclosing(boxes: Seq<Option<Aabb>>) -> Option<Aabb>
    decreases boxes.len(),
{
    if boxes.len() == 0 {
        None
    } else if boxes.len() == 1 {
        boxes[0]
    } else {
        match (enclosing(boxes.drop_last()), boxes.last()) {
            (Some(acc), Some(b)) => Some(acc.joined(b)),
            _ => None,
        }
    }
}

/// The nearest hit is one of the hits, its parameter is finite, no finite
/// parameter among the hits is smaller, and it is the first hit with that
/// parameter. There is none exactly when no hit has a finite parameter.
pub proof fn lemma_closest_is_nearest<'a>(hits: Seq<Option<HitRecord<'a>>>)
    ensures
        closest(hits) is None ==> forall|i: int|
            0 <= i < hits.len() && hits[i] is Some ==> !(#[trigger] hits[i])->0.t.finite(),
        closest(hits) matches Some(h) ==> h.t.finite() && exists|i: int|
            {
                &&& 0 <= i < hits.len()
                &&& #[trigger] hits[i] == Some(h)
                &&& forall|j: int|
                    0 <= j < hits.len() && (#[trigger] hits[j]) is Some && hits[j]->0.t.finite()
                        ==> h.t.rank() <= hits[j]->0.t.rank()
                &&& forall|j: int|
                    0 <= j < i && (#[trigger] hits[j]) is Some && hits[j]->0.t.finite()
                        ==> h.t.rank() < hits[j]->0.t.rank()
            },
    decreases hits.len(),
{
    if hits.len() > 0 {
        let front = hits.drop_last();
        lemma_closest_is_nearest(front);
        assert forall|j: int| 0 <= j < front.len() implies front[j] == hits[j] by {}
        match closest(hits) {
            Some(h) => {
                if closest(front) == Some(h) {
                    let i = choose|i: int|
                        {
                            &&& 0 <= i < front.len()
                            &&& #[trigger] front[i] == Some(h)
                            &&& forall|j: int|
                                0 <= j < front.len() && (#[trigger] front[j]) is Some
                                    && front[j]->0.t.finite() ==> h.t.rank()
                                    <= front[j]->0.t.rank()
                            &&& forall|j: int|
                                0 <= j < i && (#[trigger] front[j]) is Some
                                    && front[j]->0.t.finite() ==> h.t.rank()
                                    < front[j]->0.t.rank()
                        };
                    assert(hits[i] == Some(h));
                } else {
                    assert(hits[hits.len() - 1] == Some(h));
                }
            },
            None => {},
        }
    }
}

impl<T: Hittable> Hittable for [T] {
    /// The nearest of the hits that the objects report.
    open spec fn hit_spec(&self, ray: Ray, t_min: Scalar, t_max: Scalar) -> Option<HitRecord<'_>> {
        closest(hits_of(self@, ray, t_min, t_max))
    }

    /// The box around the boxes of the objects.
    open spec fn bounding_box_spec(&self, start_time: Scalar, end_time: Scalar) -> Option<Aabb> {
        enclosing(boxes_of(self@, start_time, end_time))
    }

    fn hit<'a>(&'a self, ray: &Ray, t_min: Scalar, t_max: Scalar) -> (r: Option<HitRecord<'a>>) {
        let mut best: Option<HitRecord<'a>> = None;
        let mut i: usize = 0;
        while i < self.len()
            invariant
                i <= self@.len(),
                best == closest(hits_of(self@, *ray, t_min, t_max).take(i as int)),
            decreases self@.len() - i,
        {
            let next = self[i].hit(ray, t_min, t_max);
            proof {
                let all = hits_of(self@, *ray, t_min, t_max);
                assert(all.take(i + 1).drop_last() == all.take(i as int));
                assert(all.take(i + 1).last() == next);
            }
            best = closer_hit(best, next);
            i += 1;
        }
        proof {
            let all = hits_of(self@, *ray, t_min, t_max);
            assert(all.take(i as int) == all);
        }
        best
    }

    fn bounding_box(&self, start_time: Scalar, end_time: Scalar) -> (r: Option<Aabb>) {
        if self.len() == 0 {
            return None;
        }
        let ghost all = boxes_of(self@, start_time, end_time);
        let mut acc = match self[0].bounding_box(start_time, end_time) {
            Some(b) => b,
            None => {
                proof {
                    lemma_enclosing_needs_all(all, 0);
                }
                return None;
            },
        };
        proof {
            assert(all.take(1).len() == 1);
            assert(all.take(1)[0] == all[0]);
        }
        let mut i: usize = 1;
        while i < self.len()
            invariant
                1 <= i <= self@.len(),
                all == boxes_of(self@, start_time, end_time),
                Some(acc) == enclosing(all.take(i as int)),
            decreases self@.len() - i,
        {
            proof {
                assert(all.take(i + 1).drop_last() == all.take(i as int));
                assert(all.take(i + 1).last() == all[i as int]);
            }
            match self[i].bounding_box(start_time, end_time) {
                Some(b) => {
                    acc = acc.union(&b);
                },
                None => {
                    proof {
                        lemma_enclosing_needs_all(all, i as int);
                    }
                    return None;
                },
            }
            i += 1;
        }
        proof {
            assert(all.take(i as int) == all);
        }
        Some(acc)
    }
}

/// A list with a missing box has no box around it.
pub proof fn lemma_enclosing_needs_all(boxes: Seq<Option<Aabb>>, i: int)
    requires
        0 <= i < boxes.len(),
        boxes[i] is None,
    ensures
        enclosing(boxes) is None,
    decreases boxes.len(),
{
    if boxes.len() > 1 && i < boxes.len() - 1 {
        lemma_enclosing_needs_all(boxes.drop_last(), i);
    }
}

/// The scene: a list of objects, which it owns.
pub struct World<T> {
    pub objects: Vec<T>,
}

impl<T: Hittable> World<T> {
    pub fn new() -> (w: Self)
        ensures
            w.objects@.len() == 0,
    {
        Self { objects: Vec::new() }
    }

    /// Appends an object to the scene.
    pub fn add(&mut self, object: T)
        ensures
            final(self).objects@ == old(self).objects@.push(object),
    {
        self.objects.push(object);
    }
}

impl<T: Hittable> Hittable for World<T> {
    /// The nearest of the hits that the objects of the scene report.
    open spec fn hit_spec(&self, ray: Ray, t_min: Scalar, t_max: Scalar) -> Option<HitRecord<'_>> {
        closest(hits_of(self.objects@, ray, t_min, t_max))
    }

    /// The box around the boxes of the objects of the scene.
    open spec fn bounding_box_spec(&self, start_time: Scalar, end_time: Scalar) -> Option<Aabb> {
        enclosing(boxes_of(self.objects@, start_time, end_time))
    }

    fn hit<'a>(&'a self, ray: &Ray, t_min: Scalar, t_max: Scalar) -> (r: Option<HitRecord<'a>>) {
        self.objects.as_slice().hit(ray, t_min, t_max)
    }

    fn bounding_box(&self, start_time: Scalar, end_time: Scalar) -> (r: Option<Aabb>) {
        self.objects.as_slice().bounding_box(start_time, end_time)
    }
}

} // verus!
