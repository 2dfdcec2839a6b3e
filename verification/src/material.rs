//! Surfaces and how they scatter light.
use crate::intersection::Intersection;
use crate::math::{Point3, Vec3};
use crate::ray::Ray;
use crate::scalar::{abs, is_positive, less, magnitude_below, ZERO};
use vstd::prelude::*;

verus! {

/// How a surface answers a ray that meets it.
///
/// The color is a fixed property of the surface, and `albedo` names it.
/// Scattering may draw on chance, so a surface says which answers it may
/// give: `scatters` holds of every answer that `scatter` can return. A
/// mirror admits one answer to each ray; a matte surface admits many.
pub trait Material: Send + Sync {
    /// The color of the surface.
    spec fn albedo(&self) -> Vec3;

    /// Whether the surface may answer `out` to a ray that meets it at `intersection`.
    spec fn scatters(&self, ray: Ray, intersection: Intersection, out: Option<Ray>) -> bool;

    /// The ray that carries the light on, or `None` if the surface absorbs it.
    fn scatter(&self, ray: &Ray, intersection: &Intersection) -> (r: Option<Ray>)
        ensures
            self.scatters(*ray, *intersection, r),
    ;

    /// The share of the light that the surface passes on, channel by channel.
    fn color(&self) -> (c: Vec3)
        ensures
            c == self.albedo(),
    ;
}

/// The pattern of the bound below which a component counts as zero: the
/// binary32 number nearest to 10^-8.
pub const NEGLIGIBLE: u32 = 0x322b_cc77;

/// Whether every component of a vector is negligible in absolute value.
pub open spec fn negligible(v: Vec3) -> bool {
    less(abs(v.x), NEGLIGIBLE) && less(abs(v.y), NEGLIGIBLE) && less(abs(v.z), NEGLIGIBLE)
}

/// Whether a vector is too short to give a direction.
pub fn near_zero(v: Vec3) -> (r: bool)
    ensures
        r == negligible(v),
{
    magnitude_below(v.x, NEGLIGIBLE) && magnitude_below(v.y, NEGLIGIBLE) && magnitude_below(
        v.z,
        NEGLIGIBLE,
    )
}

/// A matte surface, which scatters light to all sides.
#[derive(Clone, Copy, Debug, PartialEq, Eq, Structural)]
pub struct Lambert {
    pub color: Vec3,
}

impl Lambert {
    /// The way the scattered ray goes, before it is brought to unit length:
    /// the sum of the normal and a random unit vector, or the normal itself
    /// where that sum is too short to give a direction.
    pub open spec fn heading(normal: Vec3, jittered: Vec3) -> Vec3 {
        if negligible(jittered) {
            normal
        } else {
            jittered
        }
    }

    /// The scattered ray, given where it starts and the sum of the normal and
    /// a random unit vector. A matte surface absorbs nothing. The direction is
    /// still to be brought to unit length.
    pub fn scatter(&self, origin: Point3, normal: Vec3, jittered: Vec3) -> (r: Option<Ray>)
        ensures
            r == Some(Ray { origin, direction: Self::heading(normal, jittered) }),
    {
        let direction = if near_zero(jittered) {
            normal
        } else {
            jittered
        };
        Some(Ray { origin, direction })
    }

    /// The color of the surface.
    pub fn color(&self) -> (c: Vec3)
        ensures
            c == self.color,
    {
        self.color
    }
}

/// A matte surface never hands on a direction too short to use, as long as
/// its normal is none.
pub proof fn lemma_heading_usable(normal: Vec3, jittered: Vec3)
    requires
        !negligible(normal),
    ensures
        !negligible(Lambert::heading(normal, jittered)),
{
}

/// A mirror.
#[derive(Clone, Copy, Debug, PartialEq, Eq, Structural)]
pub struct Metal {
    pub color: Vec3,
}

impl Metal {
    /// The reflected ray, given that ray and `facing`, the dot product of its
    /// direction and the normal. The ray leaves only if it points away from
    /// the surface; otherwise the light is absorbed.
    pub fn scatter(&self, reflected: Ray, facing: u32) -> (r: Option<Ray>)
        ensures
            r == if less(ZERO, facing) {
                Some(reflected)
            } else {
                None
            },
    {
        if is_positive(facing) {
            Some(reflected)
        } else {
            None
        }
    }

    /// The color of the surface.
    pub fn color(&self) -> (c: Vec3)
        ensures
            c == self.color,
    {
        self.color
    }
}

} // verus!
