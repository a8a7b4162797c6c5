//! Colour fields over a surface.
use vstd::prelude::*;
use std::sync::Arc;
use rand::rngs::StdRng;
use crate::perlin::{in_order, is_permutation, is_shuffle_of, Perlin, POINT_COUNT};
use crate::scalar::Scalar;
use crate::vec3::{Vec2, Vec3};

verus! {

/// A colour for every surface coordinate and point in space.
///
/// A texture is a function: asked twice for the same place it gives the
/// same colour. `value_spec` is that function, and an implementation
/// defines it as what its `value` computes.
pub trait Texture {
    spec fn value_spec(&self, uv: Vec2, point: Vec3) -> Vec3;

    fn value(&self, uv: Vec2, point: Vec3) -> (color: Vec3)
        ensures
            color == self.value_spec(uv, point),
    ;
}

impl<T: Texture> Texture for &T {
    open spec fn value_spec(&self, uv: Vec2, point: Vec3) -> Vec3 {
        (**self).value_spec(uv, point)
    }

    fn value(&self, uv: Vec2, point: Vec3) -> (color: Vec3) {
        T::value(*self, uv, point)
    }
}

impl<T: Texture> Texture for Arc<T> {
    open spec fn value_spec(&self, uv: Vec2, point: Vec3) -> Vec3 {
        (**self).value_spec(uv, point)
    }

    fn value(&self, uv: Vec2, point: Vec3) -> (color: Vec3) {
        T::value(&*self, uv, point)
    }
}

/// One colour everywhere.
#[derive(Debug, Clone, Copy)]
pub struct Solid {
    pub color: Vec3,
}

impl Texture for Solid {
    open spec fn value_spec(&self, uv: Vec2, point: Vec3) -> Vec3 {
        self.color
    }

    fn value(&self, _uv: Vec2, _point: Vec3) -> (color: Vec3) {
        self.color
    }
}

/// Two textures laid out as a lattice in space: the point decides which of
/// the two is shown, the surface coordinate plays no part in the choice.
#[derive(Debug, Clone)]
pub struct Checker<Even, Odd> {
    pub even: Even,
    pub odd: Odd,
}

impl<Even: Texture, Odd: Texture> Checker<Even, Odd> {
    /// The colour at a place whose lattice value is `pattern`: the product
    /// of the sines of ten times each coordinate of the point.
    pub open spec fn value_in_cell(&self, pattern: Scalar, uv: Vec2, point: Vec3) -> Vec3 {
        if pattern.below(Scalar { bits: 0 }) {
            self.odd.value_spec(uv, point)
        } else {
            self.even.value_spec(uv, point)
        }
    }

    /// The colour at a place, given its lattice value
    /// `sin(10 x) * sin(10 y) * sin(10 z)`: the odd texture where that is
    /// negative, the even texture everywhere else.
    pub fn value(&self, pattern: Scalar, uv: Vec2, point: Vec3) -> (color: Vec3)
        ensures
            color == self.value_in_cell(pattern, uv, point),
    {
        if pattern.lt(Scalar::zero()) {
            self.odd.value(uv, point)
        } else {
            self.even.value(uv, point)
        }
    }
}

/// A marbled texture: bands along the z axis, stirred by Perlin noise.
/// `scale` sets how close the bands lie.
#[derive(Debug)]
pub struct Noise {
    pub perlin: Perlin,
    pub scale: Scalar,
}

impl Noise {
    /// A texture over a fresh noise generator with the given gradients.
    pub fn new(gradients: Vec<Vec3>, rng: &mut StdRng, scale: Scalar) -> (noise: Self)
        requires
            gradients@.len() == POINT_COUNT,
        ensures
            noise.perlin.wf(),
            noise.perlin.gradients() == gradients@,
            is_permutation(noise.perlin.permutation_x()),
            is_permutation(noise.perlin.permutation_y()),
            is_permutation(noise.perlin.permutation_z()),
            is_shuffle_of(noise.perlin.permutation_x(), in_order()),
            is_shuffle_of(noise.perlin.permutation_y(), in_order()),
            is_shuffle_of(noise.perlin.permutation_z(), in_order()),
            noise.scale == scale,
    {
        Self { perlin: Perlin::new(gradients, rng), scale }
    }
}

} // verus!
