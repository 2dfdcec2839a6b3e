//! The choices in meeting a ray with a sphere.
//!
//! In the sphere's own frame a ray with origin `O` and unit direction `D`
//! meets the sphere of radius `r` where `|O + tD|^2 = r^2`. The caller solves
//! that quadratic; which of its roots is the meeting is decided here.
use crate::scalar::{is_positive, less, less_than, ZERO};
use vstd::prelude::*;

verus! {

/// Whether the quadratic has no root, given its discriminant: the ray passes the sphere by.
pub fn misses(discriminant: u32) -> (r: bool)
    ensures
        r == less(discriminant, ZERO),
{
    less_than(discriminant, ZERO)
}

/// Whether `t` is the distance of the meeting, given the two roots: it is one
/// of them, it lies ahead, and the other does not lie ahead and nearer.
pub open spec fn is_meeting(t0: u32, t1: u32, t: u32) -> bool {
    &&& t == t0 || t == t1
    &&& less(ZERO, t)
    &&& less(ZERO, t0) ==> !less(t0, t)
    &&& less(ZERO, t1) ==> !less(t1, t)
}

/// The distance at which the ray meets the sphere, given the two roots of the
/// quadratic: the smaller of those that lie ahead of the origin, or `None`
/// when the sphere lies wholly behind it.
pub fn nearest_root(t0: u32, t1: u32) -> (r: Option<u32>)
    ensures
        r is None <==> !less(ZERO, t0) && !less(ZERO, t1),
        r is Some ==> is_meeting(t0, t1, r.unwrap()),
{
    let ahead0 = is_positive(t0);
    let ahead1 = is_positive(t1);
    if ahead0 && ahead1 {
        if less_than(t1, t0) {
            Some(t1)
        } else {
            Some(t0)
        }
    } else if ahead0 {
        Some(t0)
    } else if ahead1 {
        Some(t1)
    } else {
        None
    }
}

/// Where the ray meets the sphere, given the discriminant of the quadratic
/// and its two roots: nowhere if the discriminant is below zero or no root
/// lies ahead of the origin, else at the smaller root ahead.
pub fn hit(discriminant: u32, t0: u32, t1: u32) -> (r: Option<u32>)
    ensures
        r is None <==> less(discriminant, ZERO) || (!less(ZERO, t0) && !less(ZERO, t1)),
        r is Some ==> is_meeting(t0, t1, r.unwrap()),
{
    if misses(discriminant) {
        None
    } else {
        nearest_root(t0, t1)
    }
}

/// A sphere that lies wholly behind the origin of the ray, so that both
/// roots are below zero, is not met: no distance is the meeting.
pub proof fn lemma_behind(t0: u32, t1: u32, t: u32)
    requires
        less(t0, ZERO),
        less(t1, ZERO),
    ensures
        !less(ZERO, t0) && !less(ZERO, t1),
        !is_meeting(t0, t1, t),
{
}

/// The two roots determine the meeting.
pub proof fn lemma_meeting_unique(t0: u32, t1: u32, a: u32, b: u32)
    requires
        is_meeting(t0, t1, a),
        is_meeting(t0, t1, b),
    ensures
        a == b,
{
    crate::scalar::lemma_positive_order(a, b);
    crate::scalar::lemma_positive_order(b, a);
}

} // verus!
