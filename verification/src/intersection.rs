//! What a ray meets.
use crate::math::{Point3, Vec3};
use crate::scalar::{less, ZERO};
use vstd::prelude::*;

verus! {

/// A meeting of a ray and a surface: the point, the outward unit normal there,
/// and the distance `t` along the ray.
#[derive(Clone, Copy, Debug, PartialEq, Eq, Structural)]
pub struct Intersection {
    pub point: Point3,
    pub normal: Vec3,
    pub t: u32,
}

impl Intersection {
    /// A meeting counts only in front of the ray's origin.
    pub open spec fn ahead(&self) -> bool {
        less(ZERO, self.t)
    }
}

} // verus!
