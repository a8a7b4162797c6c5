//! Vectors of two and three numbers, and what can be done to them without
//! arithmetic: comparing, choosing and reordering their components.
use vstd::prelude::*;
use crate::scalar::Scalar;

verus! {

/// A point or direction in the plane: a surface coordinate, or two of the
/// three components of a point in space.
#[derive(Clone, Copy, Debug)]
pub struct Vec2 {
    pub x: Scalar,
    pub y: Scalar,
}

/// A point, a direction or a colour.
#[derive(Clone, Copy, Debug)]
pub struct Vec3 {
    pub x: Scalar,
    pub y: Scalar,
    pub z: Scalar,
}

impl Vec2 {
    /// The space vector with these two components and `z` as the third.
    pub open spec fn extended(self, z: Scalar) -> Vec3 {
        Vec3 { x: self.x, y: self.y, z }
    }

    pub fn new(x: Scalar, y: Scalar) -> (v: Vec2)
        ensures
            v.x == x,
            v.y == y,
    {
        Vec2 { x, y }
    }

    pub fn extend(self, z: Scalar) -> (v: Vec3)
        ensures
            v == self.extended(z),
    {
        Vec3 { x: self.x, y: self.y, z }
    }
}

impl Vec3 {
    /// The component on axis 0, 1 or 2.
    pub open spec fn component(self, axis: int) -> Scalar {
        if axis == 0 {
            self.x
        } else if axis == 1 {
            self.y
        } else {
            self.z
        }
    }

    /// Every component of `self` is below the same component of `other`.
    pub open spec fn all_below(self, other: Vec3) -> bool {
        self.x.below(other.x) && self.y.below(other.y) && self.z.below(other.z)
    }

    /// Every component of `self` is at most the same component of `other`.
    pub open spec fn all_at_most(self, other: Vec3) -> bool {
        self.x.at_most(other.x) && self.y.at_most(other.y) && self.z.at_most(other.z)
    }

    pub open spec fn lesser(self, other: Vec3) -> Vec3 {
        Vec3 {
            x: self.x.lesser(other.x),
            y: self.y.lesser(other.y),
            z: self.z.lesser(other.z),
        }
    }

    pub open spec fn greater(self, other: Vec3) -> Vec3 {
        Vec3 {
            x: self.x.greater(other.x),
            y: self.y.greater(other.y),
            z: self.z.greater(other.z),
        }
    }

    pub open spec fn negated(self) -> Vec3 {
        Vec3 { x: self.x.negated(), y: self.y.negated(), z: self.z.negated() }
    }

    pub open spec fn absolute(self) -> Vec3 {
        Vec3 { x: self.x.absolute(), y: self.y.absolute(), z: self.z.absolute() }
    }

    /// The smallest component, folded from the last to the first.
    pub open spec fn least(self) -> Scalar {
        self.x.lesser(self.y.lesser(self.z))
    }

    /// The largest component, folded from the last to the first.
    pub open spec fn most(self) -> Scalar {
        self.x.greater(self.y.greater(self.z))
    }

    pub fn new(x: Scalar, y: Scalar, z: Scalar) -> (v: Vec3)
        ensures
            v.x == x,
            v.y == y,
            v.z == z,
    {
        Vec3 { x, y, z }
    }

    pub fn splat(s: Scalar) -> (v: Vec3)
        ensures
            v.x == s,
            v.y == s,
            v.z == s,
    {
        Vec3 { x: s, y: s, z: s }
    }

    pub fn zero() -> (v: Vec3)
        ensures
            v.x.bits == 0,
            v.y.bits == 0,
            v.z.bits == 0,
    {
        Vec3::splat(Scalar::zero())
    }

    pub fn axis(self, axis: usize) -> (s: Scalar)
        requires
            axis < 3,
        ensures
            s == self.component(axis as int),
    {
        if axis == 0 {
            self.x
        } else if axis == 1 {
            self.y
        } else {
            self.z
        }
    }

    pub fn min(self, other: Vec3) -> (v: Vec3)
        ensures
            v == self.lesser(other),
    {
        Vec3 { x: self.x.min(other.x), y: self.y.min(other.y), z: self.z.min(other.z) }
    }

    pub fn max(self, other: Vec3) -> (v: Vec3)
        ensures
            v == self.greater(other),
    {
        Vec3 { x: self.x.max(other.x), y: self.y.max(other.y), z: self.z.max(other.z) }
    }

    pub fn min_element(self) -> (s: Scalar)
        ensures
            s == self.least(),
    {
        self.x.min(self.y.min(self.z))
    }

    pub fn max_element(self) -> (s: Scalar)
        ensures
            s == self.most(),
    {
        self.x.max(self.y.max(self.z))
    }

    pub fn neg(self) -> (v: Vec3)
        ensures
            v == self.negated(),
    {
        Vec3 { x: self.x.neg(), y: self.y.neg(), z: self.z.neg() }
    }

    pub fn abs(self) -> (v: Vec3)
        ensures
            v == self.absolute(),
    {
        Vec3 { x: self.x.abs(), y: self.y.abs(), z: self.z.abs() }
    }

    /// Whether every component of `self` is less than that of `other`.
    pub fn all_lt(self, other: Vec3) -> (b: bool)
        ensures
            b == self.all_below(other),
    {
        self.x.lt(other.x) && self.y.lt(other.y) && self.z.lt(other.z)
    }

    pub fn xy(self) -> (v: Vec2)
        ensures
            v.x == self.x,
            v.y == self.y,
    {
        Vec2 { x: self.x, y: self.y }
    }

    pub fn yz(self) -> (v: Vec2)
        ensures
            v.x == self.y,
            v.y == self.z,
    {
        Vec2 { x: self.y, y: self.z }
    }

    pub fn zx(self) -> (v: Vec2)
        ensures
            v.x == self.z,
            v.y == self.x,
    {
        Vec2 { x: self.z, y: self.x }
    }

    pub fn yzx(self) -> (v: Vec3)
        ensures
            v.x == self.y,
            v.y == self.z,
            v.z == self.x,
    {
        Vec3 { x: self.y, y: self.z, z: self.x }
    }

    pub fn zxy(self) -> (v: Vec3)
        ensures
            v.x == self.z,
            v.y == self.x,
            v.z == self.y,
    {
        Vec3 { x: self.z, y: self.x, z: self.y }
    }
}

} // verus!
