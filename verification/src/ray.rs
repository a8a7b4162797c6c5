//! The ray that is traced.
use vstd::prelude::*;
use crate::scalar::Scalar;
use crate::vec3::Vec3;

verus! {

/// A ray: the points `origin + t * direction`, at one moment of the shutter
/// interval. The direction need not have length 1.
#[derive(Clone, Copy, Debug)]
pub struct Ray {
    pub origin: Vec3,
    pub direction: Vec3,
    pub time: Scalar,
}

} // verus!
