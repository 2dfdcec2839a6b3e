//! Rays.
use crate::math::{Point3, Vec3};
use vstd::prelude::*;

verus! {

/// A half-line: where it starts and which way it goes.
#[derive(Clone, Copy, Debug, PartialEq, Eq, Structural)]
pub struct Ray {
    pub origin: Point3,
    pub direction: Vec3,
}

impl Ray {
    /// The ray under an affine map, which is given by its two actions: the
    /// origin goes through the action on points, the direction through the
    /// action on vectors, which leaves the translation out.
    pub fn transform<P, V>(&self, on_points: P, on_vectors: V) -> (r: Ray) where
        P: Fn(Point3) -> Point3,
        V: Fn(Vec3) -> Vec3,

        requires
            on_points.requires((self.origin,)),
            on_vectors.requires((self.direction,)),
        ensures
            on_points.ensures((self.origin,), r.origin),
            on_vectors.ensures((self.direction,), r.direction),
    {
        Ray { origin: on_points(self.origin), direction: on_vectors(self.direction) }
    }
}

} // verus!
