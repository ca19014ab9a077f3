//! The record of a hit, and what every surface offers.

use crate::ray::Ray;
use crate::scalar::Scalar;
use crate::vec3::lemma_dot_negated;
use crate::vec3::Vector3;
use core::ops::Neg;
use vstd::prelude::*;

verus! {

/// Where a ray met a surface.
#[derive(Clone, Copy, Debug, PartialEq, Eq, Structural)]
pub struct HitRecord {
    pub point: Vector3,
    /// The surface normal at `point`, turned against the ray.
    pub normal: Vector3,
    /// The ray parameter of `point`.
    pub t: Scalar,
    /// Whether the ray came from outside the surface.
    pub front_face: bool,
}

/// `t` lies above `t_min` and at or below `t_max`.
pub open spec fn in_range(t: Scalar, t_min: Scalar, t_max: Scalar) -> bool {
    t_min@ < t@ <= t_max@
}

/// A ray meets the front of a surface where it runs against the outward
/// normal.
pub open spec fn meets_front(ray: Ray, outward_normal: Vector3) -> bool {
    ray.direction.dot_spec(outward_normal)@ < 0
}

/// The outward normal where the ray meets the front, else its opposite.
pub open spec fn facing_normal(ray: Ray, outward_normal: Vector3) -> Vector3 {
    if meets_front(ray, outward_normal) {
        outward_normal
    } else {
        outward_normal.negated()
    }
}

/// The nearer of two hits; the candidate wins a tie.
pub open spec fn closer(best: Option<HitRecord>, candidate: Option<HitRecord>) -> Option<
    HitRecord,
> {
    match (best, candidate) {
        (_, None) => best,
        (None, Some(_)) => candidate,
        (Some(b), Some(c)) => if c.t@ <= b.t@ {
            candidate
        } else {
            best
        },
    }
}

/// The hit where its parameter is at or below `bound`, else none.
pub open spec fn up_to(hit: Option<HitRecord>, bound: Scalar) -> Option<HitRecord> {
    match hit {
        Some(rec) => if rec.t@ <= bound@ {
            hit
        } else {
            None
        },
        None => None,
    }
}

/// The normal that a record keeps never points along the ray: its dot
/// product with the ray's direction is negative or zero.
pub proof fn lemma_facing_normal_opposes_ray(ray: Ray, outward_normal: Vector3)
    ensures
        ray.direction.dot_spec(facing_normal(ray, outward_normal))@ <= 0,
{
    lemma_dot_negated(ray.direction, outward_normal);
}

/// A surface that a ray can be tested against.
pub trait Hittable {
    /// The hit of `ray` on the surface that is nearest to the ray's origin
    /// among those with a parameter above `t_min` and at or below `t_max`.
    spec fn hit_spec(&self, ray: Ray, t_min: Scalar, t_max: Scalar) -> Option<HitRecord>;

    /// Tests the ray against the surface. On a hit the record is filled and
    /// `true` returned; else the record stays as it was.
    fn hit(self: &Self, ray: &Ray, t_min: Scalar, t_max: Scalar, rec: &mut HitRecord) -> (found:
        bool)
        ensures
            found == self.hit_spec(*ray, t_min, t_max).is_some(),
            found ==> *final(rec) == self.hit_spec(*ray, t_min, t_max).unwrap(),
            !found ==> *final(rec) == *old(rec),
    ;
}

impl HitRecord {
    /// The record with every number zero, as it is before any hit.
    pub open spec fn blank() -> HitRecord {
        HitRecord {
            point: Vector3::zero_spec(),
            normal: Vector3::zero_spec(),
            t: Scalar::of(0),
            front_face: false,
        }
    }

    /// The blank record.
    pub fn new() -> (rec: HitRecord)
        ensures
            rec == HitRecord::blank(),
    {
        HitRecord {
            point: Vector3::new(Scalar::zero()),
            normal: Vector3::new(Scalar::zero()),
            t: Scalar::zero(),
            front_face: false,
        }
    }

    /// Records on which side the ray met the surface, and the normal turned
    /// against the ray.
    pub fn set_face_normal(self: &mut Self, ray: &Ray, outward_normal: &Vector3)
        ensures
            final(self).front_face == meets_front(*ray, *outward_normal),
            final(self).normal == facing_normal(*ray, *outward_normal),
            final(self).point == old(self).point,
            final(self).t == old(self).t,
    {
        self.front_face = ray.direction.dot(outward_normal).units() < 0;
        self.normal = if self.front_face {
            *outward_normal
        } else {
            outward_normal.neg()
        };
    }
}

} // verus!
