//! What a surface does with a ray that strikes it.
use vstd::prelude::*;
use std::sync::Arc;
use crate::hittable::{Face, Surface};
use crate::ray::Ray;
use crate::scalar::{Scalar, ONE_BITS};
use crate::texture::Texture;
use crate::vec3::{Vec2, Vec3};

verus! {

/// The bit pattern of `1.0e-8`, the bound under which a component counts as
/// zero.
pub const NEAR_ZERO_BITS: u64 = 0x3e45_798e_e230_8c3a;

/// A ray that leaves a surface, and how much of each colour it keeps.
#[derive(Clone, Copy, Debug)]
pub struct Scatter {
    pub ray: Ray,
    pub attenuation: Vec3,
}

/// A surface material.
///
/// `scatter` may draw random numbers, so nothing is said of its result.
pub trait Material {
    /// The ray that continues the path from the struck point `hit`, or
    /// `None` where the surface swallows the ray.
    fn scatter(&self, ray: &Ray, hit: &Surface) -> (s: Option<Scatter>);

    /// The light that the surface gives off by itself. Black unless the
    /// material says otherwise.
    fn emitted(&self, uv: Vec2, point: Vec3) -> (e: Vec3)
        default_ensures
            e.x.bits == 0,
            e.y.bits == 0,
            e.z.bits == 0,
    {
        Vec3::zero()
    }
}

/// A material, seen as any material: what a hit record holds of the
/// material that was struck.
pub open spec fn as_material<'a, M: Material>(material: &'a M) -> &'a dyn Material {
    material
}

/// A reference to a material scatters and gives off light as the material
/// does: what it returns is what the material's own method returned, and so
/// meets whatever that method promises.
impl<M: Material> Material for &M {
    fn scatter(&self, ray: &Ray, hit: &Surface) -> (s: Option<Scatter>)
        ensures
            call_ensures(M::scatter, (*self, ray, hit), s),
    {
        M::scatter(*self, ray, hit)
    }

    fn emitted(&self, uv: Vec2, point: Vec3) -> (e: Vec3)
        ensures
            call_ensures(M::emitted, (*self, uv, point), e),
    {
        M::emitted(*self, uv, point)
    }
}

/// A shared material scatters and gives off light as the material does:
/// what it returns is what the material's own method returned, and so meets
/// whatever that method promises.
impl<M: Material> Material for Arc<M> {
    fn scatter(&self, ray: &Ray, hit: &Surface) -> (s: Option<Scatter>)
        ensures
            call_ensures(M::scatter, (&**self, ray, hit), s),
    {
        M::scatter(&*self, ray, hit)
    }

    fn emitted(&self, uv: Vec2, point: Vec3) -> (e: Vec3)
        ensures
            call_ensures(M::emitted, (&**self, uv, point), e),
    {
        M::emitted(&*self, uv, point)
    }
}

/// Every component is closer to zero than `1.0e-8`.
pub open spec fn near_zero(v: Vec3) -> bool {
    v.absolute().all_below(
        Vec3 {
            x: Scalar { bits: NEAR_ZERO_BITS },
            y: Scalar { bits: NEAR_ZERO_BITS },
            z: Scalar { bits: NEAR_ZERO_BITS },
        },
    )
}

/// Whether a direction is too short to aim a ray with.
pub fn is_near_zero(v: Vec3) -> (b: bool)
    ensures
        b == near_zero(v),
{
    let eps = Scalar::from_bits(NEAR_ZERO_BITS);
    v.abs().all_lt(Vec3::splat(eps))
}

/// Whether a candidate drawn from the cube around the origin lies in the
/// unit ball, given the square of its length. Rejection sampling keeps the
/// first candidate for which this holds.
pub fn in_unit_ball(length_squared: Scalar) -> (b: bool)
    ensures
        b == length_squared.at_most(Scalar { bits: ONE_BITS }),
{
    length_squared.le(Scalar::one())
}

/// A unit vector turned into the hemisphere around a normal, given the dot
/// product of the two: the vector itself where that is positive, its
/// opposite everywhere else.
pub fn random_on_hemisphere(unit: Vec3, alignment: Scalar) -> (v: Vec3)
    ensures
        v == if (Scalar { bits: 0 }).below(alignment) {
            unit
        } else {
            unit.negated()
        },
{
    if alignment.gt(Scalar::zero()) {
        unit
    } else {
        unit.neg()
    }
}

/// The ray that leaves the point of a hit in a given direction, at the
/// moment of the ray that struck.
pub open spec fn continuation(ray: Ray, hit: Surface, direction: Vec3) -> Ray {
    Ray { origin: hit.point, direction, time: ray.time }
}

/// An ideal diffuse surface.
#[derive(Debug, Clone)]
pub struct Lambertian<Albedo> {
    pub albedo: Albedo,
}

impl<Albedo: Texture> Lambertian<Albedo> {
    /// Scatters toward `target`, the sum of the surface normal and a random
    /// point of the unit sphere. Where that sum is too short to aim with,
    /// the ray leaves along the normal. The ray keeps the colour of the
    /// texture at the hit. A diffuse surface swallows no ray.
    pub fn scatter(&self, ray: &Ray, hit: &Surface, target: Vec3) -> (s: Option<Scatter>)
        ensures
            s == Some(
                Scatter {
                    ray: continuation(
                        *ray,
                        *hit,
                        if near_zero(target) {
                            hit.normal
                        } else {
                            target
                        },
                    ),
                    attenuation: self.albedo.value_spec(hit.uv, hit.point),
                },
            ),
    {
        let direction = if is_near_zero(target) {
            hit.normal
        } else {
            target
        };
        Some(
            Scatter {
                ray: Ray { origin: hit.point, direction, time: ray.time },
                attenuation: self.albedo.value(hit.uv, hit.point),
            },
        )
    }
}

/// A mirror, blurred by `fuzz`: 0 is a perfect mirror, 1 the roughest.
#[derive(Debug, Clone, Copy)]
pub struct Metal {
    pub albedo: Vec3,
    pub fuzz: Scalar,
}

impl Metal {
    /// Scatters along `reflected`, the mirrored direction of the ray moved
    /// by `fuzz` times a random point of the unit ball. `alignment` is the
    /// dot product of `reflected` and the surface normal: the ray leaves
    /// where that is positive and is swallowed where the blur has turned it
    /// into the surface.
    pub fn scatter(&self, ray: &Ray, hit: &Surface, reflected: Vec3, alignment: Scalar) -> (s:
        Option<Scatter>)
        ensures
            s == if (Scalar { bits: 0 }).below(alignment) {
                Some(
                    Scatter {
                        ray: continuation(*ray, *hit, reflected),
                        attenuation: self.albedo,
                    },
                )
            } else {
                None
            },
    {
        if alignment.gt(Scalar::zero()) {
            Some(
                Scatter {
                    ray: Ray { origin: hit.point, direction: reflected, time: ray.time },
                    attenuation: self.albedo,
                },
            )
        } else {
            None
        }
    }
}

/// Which way a ray leaves a clear surface.
#[derive(Debug, Clone, Copy, PartialEq, Eq, Structural)]
pub enum Bend {
    Reflect,
    Refract,
}

/// A clear material such as glass, with index of refraction `ir`.
#[derive(Debug, Clone, Copy)]
pub struct Dielectric {
    pub ir: Scalar,
}

impl Dielectric {
    /// The ratio of the indices of refraction on the two sides of the
    /// surface, in the order in which the ray passes them: `inverse`, which
    /// is `1 / ir`, for a ray that enters, `ir` for a ray that leaves.
    pub fn refraction_ratio(&self, face: Face, inverse: Scalar) -> (ratio: Scalar)
        ensures
            ratio == match face {
                Face::Front => inverse,
                Face::Back => self.ir,
            },
    {
        match face {
            Face::Front => inverse,
            Face::Back => self.ir,
        }
    }

    /// Whether no refracted ray exists: `sin_ratio`, the sine of the angle
    /// of incidence times the refraction ratio, is above 1.
    pub fn reflects_totally(sin_ratio: Scalar) -> (b: bool)
        ensures
            b == (Scalar { bits: ONE_BITS }).below(sin_ratio),
    {
        sin_ratio.gt(Scalar::one())
    }

    /// The way a ray leaves: mirrored where no refracted ray exists or where
    /// the draw against the reflectance came out for reflection, refracted
    /// everywhere else.
    pub fn bend(total: bool, sampled: bool) -> (b: Bend)
        ensures
            b == if total || sampled {
                Bend::Reflect
            } else {
                Bend::Refract
            },
    {
        if total || sampled {
            Bend::Reflect
        } else {
            Bend::Refract
        }
    }

    /// Scatters along `direction`, the mirrored or refracted direction
    /// that `bend` asked for. Glass takes nothing from the light and
    /// swallows no ray.
    pub fn scatter(&self, ray: &Ray, hit: &Surface, direction: Vec3) -> (s: Option<Scatter>)
        ensures
            s == Some(
                Scatter {
                    ray: continuation(*ray, *hit, direction),
                    attenuation: Vec3 {
                        x: Scalar { bits: ONE_BITS },
                        y: Scalar { bits: ONE_BITS },
                        z: Scalar { bits: ONE_BITS },
                    },
                },
            ),
    {
        Some(
            Scatter {
                ray: Ray { origin: hit.point, direction, time: ray.time },
                attenuation: Vec3::splat(Scalar::one()),
            },
        )
    }
}

/// A surface that gives off light and scatters none.
pub struct DiffuseLight<E> {
    pub emit: E,
}

impl<E: Texture> Material for DiffuseLight<E> {
    fn scatter(&self, _ray: &Ray, _hit: &Surface) -> (s: Option<Scatter>)
        ensures
            s is None,
    {
        None
    }

    fn emitted(&self, uv: Vec2, point: Vec3) -> (e: Vec3)
        ensures
            e == self.emit.value_spec(uv, point),
    {
        self.emit.value(uv, point)
    }
}

} // verus!
