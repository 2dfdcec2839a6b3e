//! Vectors and points of three components.
use crate::scalar::{is_nan, less, ZERO};
use vstd::prelude::*;

verus! {

/// A direction or displacement. Each component is a binary32 bit pattern.
#[derive(Clone, Copy, Debug, PartialEq, Eq, Structural)]
pub struct Vec3 {
    pub x: u32,
    pub y: u32,
    pub z: u32,
}

impl Vec3 {
    /// Whether every component is a number and none is below zero.
    pub open spec fn not_negative(&self) -> bool {
        &&& !is_nan(self.x) && !less(self.x, ZERO)
        &&& !is_nan(self.y) && !less(self.y, ZERO)
        &&& !is_nan(self.z) && !less(self.z, ZERO)
    }

    /// The vector whose components are all positive zero.
    pub open spec fn spec_zeros() -> Vec3 {
        Vec3 { x: 0, y: 0, z: 0 }
    }

    /// The vector whose components are all positive zero.
    #[verifier::when_used_as_spec(spec_zeros)]
    pub fn zeros() -> (v: Vec3)
        ensures
            v == Vec3::spec_zeros(),
    {
        Vec3 { x: 0, y: 0, z: 0 }
    }
}

/// A position. Each component is a binary32 bit pattern.
#[derive(Clone, Copy, Debug, PartialEq, Eq, Structural)]
pub struct Point3 {
    pub x: u32,
    pub y: u32,
    pub z: u32,
}

} // verus!
