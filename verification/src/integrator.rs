//! How long a path is followed, and which light it gathers on the way.
use vstd::prelude::*;
use crate::hittable::HitRecord;
use crate::material::Scatter;

verus! {

/// What became of the ray at one bounce.
#[derive(Debug, Clone, Copy, PartialEq, Eq, Structural)]
pub enum Bounce {
    /// The ray hit nothing and left the scene.
    Missed,
    /// The ray hit a surface, which scattered none of it.
    Absorbed,
    /// The ray hit a surface, which sent it on.
    Scattered,
}

impl Bounce {
    /// What became of a ray, from what the scene reported for it and, where
    /// it hit a surface, what the material of the surface did with it.
    pub fn of<'a>(hit: &Option<HitRecord<'a>>, scatter: &Option<Scatter>) -> (bounce: Bounce)
        ensures
            bounce == if *hit is None {
                Bounce::Missed
            } else if *scatter is None {
                Bounce::Absorbed
            } else {
                Bounce::Scattered
            },
    {
        if hit.is_none() {
            Bounce::Missed
        } else if scatter.is_none() {
            Bounce::Absorbed
        } else {
            Bounce::Scattered
        }
    }
}

/// The light that a bounce adds to the path, weighted by what the path has
/// kept of each colour so far.
#[derive(Debug, Clone, Copy, PartialEq, Eq, Structural)]
pub enum Light {
    /// The colour of the background.
    Background,
    /// What the surface gives off at the point that was hit.
    Emission,
}

/// The course of one path from the camera into the scene.
#[derive(Debug, Clone, Copy)]
pub struct Path {
    bounces: u32,
    max_depth: u32,
    ended: bool,
}

impl Path {
    /// The number of bounces that the path has taken.
    pub closed spec fn taken(&self) -> nat {
        self.bounces as nat
    }

    /// The number of bounces after which the path is cut off.
    pub closed spec fn limit(&self) -> nat {
        self.max_depth as nat
    }

    /// The path has left the scene or was swallowed by a surface.
    pub closed spec fn resolved(&self) -> bool {
        self.ended
    }

    /// The path takes another bounce: it is not resolved and has bounces
    /// left.
    pub open spec fn live(&self) -> bool {
        !self.resolved() && self.taken() < self.limit()
    }

    /// The path keeps within its limit.
    pub closed spec fn wf(&self) -> bool {
        self.bounces <= self.max_depth
    }

    /// A path that may take up to `max_depth` bounces.
    pub fn new(max_depth: u32) -> (path: Self)
        ensures
            path.wf(),
            path.taken() == 0,
            path.limit() == max_depth,
            !path.resolved(),
    {
        Self { bounces: 0, max_depth, ended: false }
    }

    /// Whether another ray is to be traced. A path that is cut off at its
    /// limit gathers nothing beyond it.
    pub fn is_live(&self) -> (live: bool)
        ensures
            live == self.live(),
    {
        !self.ended && self.bounces < self.max_depth
    }

    /// The light that a bounce adds to the path: the background where the
    /// ray left the scene, the light of the surface wherever it hit one.
    pub fn light(bounce: Bounce) -> (light: Light)
        ensures
            light == match bounce {
                Bounce::Missed => Light::Background,
                Bounce::Absorbed => Light::Emission,
                Bounce::Scattered => Light::Emission,
            },
    {
        match bounce {
            Bounce::Missed => Light::Background,
            _ => Light::Emission,
        }
    }

    /// Records one bounce: the path goes on only if the ray was scattered.
    /// Returns the light that the bounce adds.
    pub fn advance(&mut self, bounce: Bounce) -> (light: Light)
        requires
            old(self).wf(),
            old(self).live(),
        ensures
            final(self).wf(),
            final(self).limit() == old(self).limit(),
            final(self).taken() == old(self).taken() + 1,
            final(self).resolved() == (bounce != Bounce::Scattered),
            light == match bounce {
                Bounce::Missed => Light::Background,
                Bounce::Absorbed => Light::Emission,
                Bounce::Scattered => Light::Emission,
            },
    {
        self.bounces = self.bounces + 1;
        self.ended = match bounce {
            Bounce::Scattered => false,
            _ => true,
        };
        Self::light(bounce)
    }
}

/// A path never takes more bounces than its limit, and once it has taken
/// that many it is not followed further.
pub proof fn lemma_path_is_bounded(path: Path)
    requires
        path.wf(),
    ensures
        path.taken() <= path.limit(),
        path.taken() == path.limit() ==> !path.live(),
{
}

} // verus!
