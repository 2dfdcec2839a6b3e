//! Things a ray can meet.
use crate::intersection::Intersection;
use crate::material::Material;
use crate::ray::Ray;
use vstd::prelude::*;

verus! {

/// A primitive of the scene.
///
/// A primitive answers the same ray the same way every time: `meets` names
/// the answer and `surface` the material, and an implementation has to
/// return exactly those.
pub trait Shape: Send + Sync {
    /// What the primitive is made of.
    type Surface: Material;

    /// Where a ray meets the primitive, if it does.
    spec fn meets(&self, ray: Ray) -> Option<Intersection>;

    /// The material at a meeting with the primitive.
    spec fn surface(&self, intersection: Intersection) -> Self::Surface;

    /// Where the ray meets the primitive, if it does.
    fn hit(&self, ray: &Ray) -> (r: Option<Intersection>)
        ensures
            r == self.meets(*ray),
    ;

    /// The material at a meeting with this primitive.
    fn material_at(&self, intersection: &Intersection) -> (m: &Self::Surface)
        ensures
            *m == self.surface(*intersection),
    ;
}

/// The primitives to render, in a fixed order.
pub struct Scene<S: Shape> {
    pub shapes: Vec<S>,
}

impl<S: Shape> Scene<S> {
    /// What each shape answers to a ray, in the order of the scene.
    pub open spec fn answers(&self, ray: Ray) -> Seq<Option<Intersection>> {
        Seq::new(self.shapes@.len(), |k: int| self.shapes@[k].meets(ray))
    }
}

} // verus!
