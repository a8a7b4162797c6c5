//! Spheres and axis-aligned rectangles: which of the points where a ray
//! meets them counts as a hit.
use vstd::prelude::*;
use crate::aabb::Aabb;
use crate::hittable::{admits, compute_face_normal, is_admitted, struck, HitRecord, Surface};
use crate::material::{as_material, Material};
use crate::scalar::{Scalar, ONE_BITS};
use crate::vec3::{Vec2, Vec3};

verus! {

/// A sphere. A negative radius is allowed: it turns the outward normal
/// inward, which makes the inside of a hollow shell.
#[derive(Debug)]
pub struct Sphere<Mat> {
    pub center: Vec3,
    pub radius: Scalar,
    pub material: Mat,
}

/// The root of a sphere's quadratic that counts for the interval from
/// `t_min` to `t_max`: none where the discriminant is negative, else the
/// smaller root if it is finite and the interval holds it, else the larger
/// root if it is finite and the interval holds that.
pub open spec fn root_in_range(
    discriminant: Scalar,
    near: Scalar,
    far: Scalar,
    t_min: Scalar,
    t_max: Scalar,
) -> Option<Scalar> {
    if discriminant.below(Scalar { bits: 0 }) {
        None
    } else if admits(near, t_min, t_max) {
        Some(near)
    } else if admits(far, t_min, t_max) {
        Some(far)
    } else {
        None
    }
}

/// The root that counts is the nearest point of the sphere in the
/// interval: under a smaller upper bound the same root counts if the bound
/// admits it, and none if not. This is what a walk of the hierarchy relies
/// on when it tightens the interval. It holds where the smaller root is not
/// above the larger.
pub proof fn lemma_root_is_nearest(
    discriminant: Scalar,
    near: Scalar,
    far: Scalar,
    t_min: Scalar,
    t_max: Scalar,
    bound: Scalar,
)
    requires
        bound.at_most(t_max),
        near.nan() || far.nan() || near.at_most(far),
    ensures
        root_in_range(discriminant, near, far, t_min, t_max) matches Some(t) ==> t.finite(),
        root_in_range(discriminant, near, far, t_min, bound) == match root_in_range(
            discriminant,
            near,
            far,
            t_min,
            t_max,
        ) {
            Some(t) => if t.at_most(bound) {
                Some(t)
            } else {
                None
            },
            None => None,
        },
{
}

impl<Mat: Material> Sphere<Mat> {
    /// Chooses between the two points where the line of the ray meets the
    /// sphere. `near` and `far` are the roots
    /// `(-half_b - sqrt(discriminant)) / a` and
    /// `(-half_b + sqrt(discriminant)) / a` of the quadratic in the ray
    /// parameter.
    pub fn choose_root(
        discriminant: Scalar,
        near: Scalar,
        far: Scalar,
        t_min: Scalar,
        t_max: Scalar,
    ) -> (t: Option<Scalar>)
        ensures
            t == root_in_range(discriminant, near, far, t_min, t_max),
    {
        if discriminant.lt(Scalar::zero()) {
            None
        } else if is_admitted(near, t_min, t_max) {
            Some(near)
        } else if is_admitted(far, t_min, t_max) {
            Some(far)
        } else {
            None
        }
    }

    /// The record of the hit at the chosen root `t`. `point` is the point
    /// of the ray at `t`, `outward_normal` the vector from the centre to
    /// the point divided by the radius, `uv` the longitude and latitude of
    /// that normal, and `facing` the dot product of the ray's direction and
    /// that normal.
    pub fn hit<'a>(
        &'a self,
        t: Scalar,
        point: Vec3,
        outward_normal: Vec3,
        uv: Vec2,
        facing: Scalar,
    ) -> (hit: HitRecord<'a>)
        ensures
            hit.geometry() == struck(t, point, outward_normal, uv, facing),
            hit.material === as_material(&self.material),
    {
        let (normal, face) = compute_face_normal(facing, outward_normal);
        let material: &'a dyn Material = &self.material;
        HitRecord::new(Surface { t, point, normal, uv, face }, material)
    }
}

/// The coordinate plane that a rectangle is parallel to, named by the two
/// axes that span it, in the order in which the rectangle's corners give
/// them.
#[derive(Debug, Clone, Copy, PartialEq, Eq, Structural)]
pub enum Plane {
    XY,
    YZ,
    ZX,
}

impl Plane {
    /// The two coordinates of a point in the plane.
    pub open spec fn projected(self, point: Vec3) -> Vec2 {
        match self {
            Plane::XY => Vec2 { x: point.x, y: point.y },
            Plane::YZ => Vec2 { x: point.y, y: point.z },
            Plane::ZX => Vec2 { x: point.z, y: point.x },
        }
    }

    /// The coordinate of a point across the plane.
    pub open spec fn across(self, point: Vec3) -> Scalar {
        match self {
            Plane::XY => point.z,
            Plane::YZ => point.x,
            Plane::ZX => point.y,
        }
    }

    /// The point in space with in-plane coordinates `inside` and the
    /// coordinate `k` across the plane.
    pub open spec fn placed(self, inside: Vec2, k: Scalar) -> Vec3 {
        match self {
            Plane::XY => Vec3 { x: inside.x, y: inside.y, z: k },
            Plane::YZ => Vec3 { x: k, y: inside.x, z: inside.y },
            Plane::ZX => Vec3 { x: inside.y, y: k, z: inside.x },
        }
    }

    /// The unit vector across the plane.
    pub open spec fn unit_normal(self) -> Vec3 {
        self.placed(Vec2 { x: Scalar { bits: 0 }, y: Scalar { bits: 0 } }, Scalar { bits: ONE_BITS })
    }

    pub fn project(&self, point: Vec3) -> (v: Vec2)
        ensures
            v == self.projected(point),
    {
        match self {
            Plane::XY => point.xy(),
            Plane::YZ => point.yz(),
            Plane::ZX => point.zx(),
        }
    }

    /// The component of a vector across the plane: the one that decides
    /// where a ray crosses it.
    pub fn normal_component(&self, v: Vec3) -> (s: Scalar)
        ensures
            s == self.across(v),
    {
        match self {
            Plane::XY => v.z,
            Plane::YZ => v.x,
            Plane::ZX => v.y,
        }
    }

    pub fn place(&self, inside: Vec2, k: Scalar) -> (v: Vec3)
        ensures
            v == self.placed(inside, k),
            self.projected(v) == inside,
            self.across(v) == k,
    {
        let v = inside.extend(k);
        match self {
            Plane::XY => v,
            Plane::YZ => v.zxy(),
            Plane::ZX => v.yzx(),
        }
    }

    pub fn outward_normal(&self) -> (n: Vec3)
        ensures
            n == self.unit_normal(),
    {
        self.place(Vec2::new(Scalar::zero(), Scalar::zero()), Scalar::one())
    }
}

/// A rectangle parallel to a coordinate plane: the points of the plane at
/// `k` whose in-plane coordinates lie from `min` to `max`.
pub struct Rect<Mat> {
    pub plane: Plane,
    pub min: Vec2,
    pub max: Vec2,
    pub k: Scalar,
    pub material: Mat,
}

impl<Mat: Material> Rect<Mat> {
    /// The crossing of the plane at parameter `t` and point `point` is a
    /// hit: the parameter is finite and lies from `t_min` to `t_max`, and
    /// each in-plane coordinate of the point lies from `min` to `max`. A
    /// crossing with a parameter or a coordinate that is not a number is no
    /// hit.
    pub open spec fn accepts(&self, t: Scalar, point: Vec3, t_min: Scalar, t_max: Scalar) -> bool {
        let xy = self.plane.projected(point);
        &&& admits(t, t_min, t_max)
        &&& xy.x.between(self.min.x, self.max.x)
        &&& xy.y.between(self.min.y, self.max.y)
    }

    /// The hit of a ray on the rectangle, if it has one. `t` is the
    /// parameter at which the ray crosses the plane, `point` the point of
    /// the ray there, `uv` that point's place between `min` and `max` as a
    /// fraction, and `facing` the dot product of the ray's direction and
    /// the unit vector across the plane.
    pub fn hit<'a>(
        &'a self,
        t: Scalar,
        point: Vec3,
        uv: Vec2,
        facing: Scalar,
        t_min: Scalar,
        t_max: Scalar,
    ) -> (hit: Option<HitRecord<'a>>)
        ensures
            hit is Some <==> self.accepts(t, point, t_min, t_max),
            hit matches Some(h) ==> h.geometry() == struck(
                t,
                point,
                self.plane.unit_normal(),
                uv,
                facing,
            ) && h.material === as_material(&self.material),
    {
        if !is_admitted(t, t_min, t_max) {
            return None;
        }
        let xy = self.plane.project(point);
        if !xy.x.within(self.min.x, self.max.x) || !xy.y.within(self.min.y, self.max.y) {
            return None;
        }
        let (normal, face) = compute_face_normal(facing, self.plane.outward_normal());
        let material: &'a dyn Material = &self.material;
        Some(HitRecord::new(Surface { t, point, normal, uv, face }, material))
    }

    /// The box around the rectangle, which reaches from `below` to `above`
    /// across the plane: a little under and a little over `k`, so that the
    /// box has a thickness. It is a box in good order where the rectangle
    /// is one and `below` is not above `above`.
    pub fn bounding_box(&self, below: Scalar, above: Scalar) -> (b: Option<Aabb>)
        ensures
            b == Some(
                Aabb {
                    minimum: self.plane.placed(self.min, below),
                    maximum: self.plane.placed(self.max, above),
                },
            ),
            self.min.x.at_most(self.max.x) && self.min.y.at_most(self.max.y) && below.at_most(above)
                ==> b->0.wf(),
    {
        Some(
            Aabb {
                minimum: self.plane.place(self.min, below),
                maximum: self.plane.place(self.max, above),
            },
        )
    }
}

/// A crossing that a rectangle accepts is its one point on the ray: under
/// a smaller upper bound it is accepted if the bound admits its parameter,
/// and not if not. This is what a walk of the hierarchy relies on when it
/// tightens the interval.
pub proof fn lemma_crossing_is_nearest<Mat: Material>(
    rect: Rect<Mat>,
    t: Scalar,
    point: Vec3,
    t_min: Scalar,
    t_max: Scalar,
    bound: Scalar,
)
    requires
        bound.at_most(t_max),
    ensures
        rect.accepts(t, point, t_min, t_max) ==> t.finite(),
        rect.accepts(t, point, t_min, bound) == (rect.accepts(t, point, t_min, t_max)
            && t.at_most(bound)),
{
}

/// A closed box with its faces parallel to the coordinate planes: six
/// rectangles between two opposite corners.
pub struct Cuboid<Mat> {
    pub minimum: Vec3,
    pub maximum: Vec3,
    /// The faces: for each of the planes XY, ZX and YZ the face at the
    /// maximum corner, then the face at the minimum corner.
    pub sides: Vec<Rect<Mat>>,
}

/// The rectangle has the shape of the face of the box between `minimum` and
/// `maximum` that is parallel to `plane`, at the maximum corner if `far`
/// and at the minimum corner if not.
pub open spec fn is_face<Mat>(
    side: Rect<Mat>,
    minimum: Vec3,
    maximum: Vec3,
    plane: Plane,
    far: bool,
) -> bool {
    &&& side.plane == plane
    &&& side.min == plane.projected(minimum)
    &&& side.max == plane.projected(maximum)
    &&& side.k == plane.across(
        if far {
            maximum
        } else {
            minimum
        },
    )
}

impl<Mat: Material + Clone> Cuboid<Mat> {
    /// One face of the box between two corners.
    fn face(minimum: Vec3, maximum: Vec3, plane: Plane, far: bool, material: Mat) -> (side: Rect<Mat>)
        ensures
            is_face(side, minimum, maximum, plane, far),
            side.material == material,
    {
        let corner = if far {
            maximum
        } else {
            minimum
        };
        Rect {
            plane,
            min: plane.project(minimum),
            max: plane.project(maximum),
            k: plane.normal_component(corner),
            material,
        }
    }

    /// The box between two opposite corners, every face of one material:
    /// the last face gets the material itself, the others a clone of it.
    pub fn new(minimum: Vec3, maximum: Vec3, material: Mat) -> (cuboid: Self)
        ensures
            cuboid.minimum == minimum,
            cuboid.maximum == maximum,
            cuboid.sides@.len() == 6,
            forall|i: int|
                0 <= i < 5 ==> call_ensures(
                    Mat::clone,
                    (&material,),
                    (#[trigger] cuboid.sides@[i]).material,
                ),
            cuboid.sides@[5].material == material,
            is_face(cuboid.sides@[0], minimum, maximum, Plane::XY, true),
            is_face(cuboid.sides@[1], minimum, maximum, Plane::XY, false),
            is_face(cuboid.sides@[2], minimum, maximum, Plane::ZX, true),
            is_face(cuboid.sides@[3], minimum, maximum, Plane::ZX, false),
            is_face(cuboid.sides@[4], minimum, maximum, Plane::YZ, true),
            is_face(cuboid.sides@[5], minimum, maximum, Plane::YZ, false),
    {
        let mut sides: Vec<Rect<Mat>> = Vec::new();
        sides.push(Self::face(minimum, maximum, Plane::XY, true, material.clone()));
        sides.push(Self::face(minimum, maximum, Plane::XY, false, material.clone()));
        sides.push(Self::face(minimum, maximum, Plane::ZX, true, material.clone()));
        sides.push(Self::face(minimum, maximum, Plane::ZX, false, material.clone()));
        sides.push(Self::face(minimum, maximum, Plane::YZ, true, material.clone()));
        sides.push(Self::face(minimum, maximum, Plane::YZ, false, material));
        Cuboid { minimum, maximum, sides }
    }

    /// The box itself.
    pub fn bounding_box(&self) -> (b: Option<Aabb>)
        ensures
            b == Some(Aabb { minimum: self.minimum, maximum: self.maximum }),
            self.minimum.all_at_most(self.maximum) ==> b->0.wf(),
    {
        Some(Aabb { minimum: self.minimum, maximum: self.maximum })
    }
}

} // verus!
