//! Axis-aligned bounding boxes.
use vstd::prelude::*;
use crate::scalar::Scalar;
use crate::vec3::Vec3;

verus! {

/// An axis-aligned box, given by its two extreme corners.
#[derive(Clone, Copy, Debug)]
pub struct Aabb {
    pub minimum: Vec3,
    pub maximum: Vec3,
}

impl Aabb {
    /// On every axis the minimum is at most the maximum. No coordinate of
    /// such a box is a NaN.
    pub open spec fn wf(self) -> bool {
        self.minimum.all_at_most(self.maximum)
    }

    /// `inner` lies within `self`.
    pub open spec fn encloses(self, inner: Aabb) -> bool {
        self.minimum.all_at_most(inner.minimum) && inner.maximum.all_at_most(self.maximum)
    }

    /// The box from the lesser of the minimums to the greater of the
    /// maximums.
    pub open spec fn joined(self, other: Aabb) -> Aabb {
        Aabb {
            minimum: self.minimum.lesser(other.minimum),
            maximum: self.maximum.greater(other.maximum),
        }
    }

    /// The slab test, on the parameters at which the ray crosses the six
    /// planes of the box: on each axis the ray is between the two planes
    /// from the lesser to the greater parameter, and it meets the box where
    /// the three intervals and the interval of the query have a point in
    /// common.
    pub open spec fn slabs_overlap(a: Vec3, b: Vec3, t_min: Scalar, t_max: Scalar) -> bool {
        let t0 = a.lesser(b).most().greater(t_min);
        let t1 = a.greater(b).least().lesser(t_max);
        t0.below(t1)
    }

    /// Whether a ray meets the box within `t_min..t_max`. `a` holds, for
    /// each axis, the parameter at which the ray crosses the plane through
    /// `minimum`, which is `(minimum - origin) / direction`, and `b` the
    /// same for `maximum`.
    pub fn is_hit_by(a: Vec3, b: Vec3, t_min: Scalar, t_max: Scalar) -> (hit: bool)
        ensures
            hit == Self::slabs_overlap(a, b, t_min, t_max),
    {
        let t0 = a.min(b).max_element().max(t_min);
        let t1 = a.max(b).min_element().min(t_max);
        t0.lt(t1)
    }

    /// The smallest box that holds both.
    pub fn union(&self, other: &Self) -> (u: Self)
        ensures
            u == self.joined(*other),
            self.wf() && other.wf() ==> u.wf() && u.encloses(*self) && u.encloses(*other),
    {
        Self {
            minimum: self.minimum.min(other.minimum),
            maximum: self.maximum.max(other.maximum),
        }
    }
}

/// The union of two boxes is a box and holds both of them: its minimum is
/// at most either minimum and its maximum at least either maximum, on every
/// axis.
pub proof fn lemma_union_encloses(a: Aabb, b: Aabb)
    requires
        a.wf(),
        b.wf(),
    ensures
        a.joined(b).wf(),
        a.joined(b).encloses(a),
        a.joined(b).encloses(b),
{
}

/// A box that holds a second box holds every box within the second.
pub proof fn lemma_encloses_transitive(a: Aabb, b: Aabb, c: Aabb)
    requires
        a.encloses(b),
        b.encloses(c),
    ensures
        a.encloses(c),
{
}

} // verus!
