//! Spheres.

use crate::ray::Ray;
use crate::scalar::lemma_div_units_ordered;
use crate::scalar::lemma_sqrt_units_sign;
use crate::scalar::Scalar;
use crate::shape::hittable::facing_normal;
use crate::shape::hittable::in_range;
use crate::shape::hittable::meets_front;
use crate::shape::hittable::up_to;
use crate::shape::hittable::HitRecord;
use crate::shape::hittable::Hittable;
use crate::vec3::lemma_length_squared_sign;
use crate::vec3::Vector3;
use core::ops::Neg;
use vstd::prelude::*;

verus! {

/// A sphere. The radius is meant to be positive.
#[derive(Clone, Copy, Debug, PartialEq, Eq, Structural)]
pub struct Sphere {
    pub center: Vector3,
    pub radius: Scalar,
}

impl Sphere {
    /// From the centre to the ray's origin.
    pub open spec fn offset(self, ray: Ray) -> Vector3 {
        ray.origin.minus(self.center)
    }

    /// Squared length of the ray's direction: the leading coefficient of the
    /// quadratic whose roots are the parameters at which the ray meets the
    /// sphere.
    pub open spec fn leading(self, ray: Ray) -> Scalar {
        ray.direction.length_squared_spec()
    }

    /// Half of the quadratic's middle coefficient.
    pub open spec fn half_middle(self, ray: Ray) -> Scalar {
        self.offset(ray).dot_spec(ray.direction)
    }

    /// The quadratic's constant coefficient.
    pub open spec fn constant(self, ray: Ray) -> Scalar {
        self.offset(ray).length_squared_spec().minus(self.radius.times(self.radius))
    }

    /// A quarter of the quadratic's discriminant.
    pub open spec fn discriminant(self, ray: Ray) -> Scalar {
        self.half_middle(ray).times(self.half_middle(ray)).minus(
            self.leading(ray).times(self.constant(ray)),
        )
    }

    /// The smaller root of the quadratic.
    pub open spec fn near_root(self, ray: Ray) -> Scalar {
        self.half_middle(ray).negated().minus(self.discriminant(ray).sqrt_spec()).over(
            self.leading(ray),
        )
    }

    /// The larger root of the quadratic.
    pub open spec fn far_root(self, ray: Ray) -> Scalar {
        self.half_middle(ray).negated().plus(self.discriminant(ray).sqrt_spec()).over(
            self.leading(ray),
        )
    }

    /// The root that counts as the hit: the smaller one where it is in range,
    /// else the larger one where that is in range.
    pub open spec fn accepted_root(self, ray: Ray, t_min: Scalar, t_max: Scalar) -> Option<
        Scalar,
    > {
        if self.discriminant(ray)@ < 0 {
            None
        } else if in_range(self.near_root(ray), t_min, t_max) {
            Some(self.near_root(ray))
        } else if in_range(self.far_root(ray), t_min, t_max) {
            Some(self.far_root(ray))
        } else {
            None
        }
    }

    /// The normal at `point` that points away from the centre.
    pub open spec fn outward_normal(self, point: Vector3) -> Vector3 {
        point.minus(self.center).shrunk(self.radius)
    }

    /// The record of the hit at parameter `t` of the ray.
    pub open spec fn record_at(self, ray: Ray, t: Scalar) -> HitRecord {
        let point = ray.at_spec(t);
        let outward = self.outward_normal(point);
        HitRecord {
            point,
            normal: facing_normal(ray, outward),
            t,
            front_face: meets_front(ray, outward),
        }
    }

    /// The hit of the ray on the sphere, if one of the roots is in range.
    pub open spec fn nearest_hit(self, ray: Ray, t_min: Scalar, t_max: Scalar) -> Option<
        HitRecord,
    > {
        match self.accepted_root(ray, t_min, t_max) {
            Some(t) => Some(self.record_at(ray, t)),
            None => None,
        }
    }

    /// The sphere about `center` with the given radius.
    pub fn new(center: Vector3, radius: Scalar) -> (sphere: Sphere)
        ensures
            sphere == (Sphere { center, radius }),
    {
        Self { center, radius }
    }
}

/// The discriminant's root and the leading coefficient are not negative, so
/// the near root does not exceed the far one.
pub proof fn lemma_roots_ordered(sphere: Sphere, ray: Ray)
    ensures
        sphere.near_root(ray)@ <= sphere.far_root(ray)@,
{
    lemma_sqrt_units_sign(sphere.discriminant(ray)@);
    lemma_length_squared_sign(ray.direction);
    let base = sphere.half_middle(ray).negated();
    let root = sphere.discriminant(ray).sqrt_spec();
    lemma_div_units_ordered(base.minus(root)@, base.plus(root)@, sphere.leading(ray)@);
}

/// A sphere is hit exactly where the discriminant is not negative and one of
/// the two roots is in range; the hit is then at the near root where that is
/// in range, else at the far one, and the near root is the smaller.
pub proof fn lemma_hit_iff_root_in_range(sphere: Sphere, ray: Ray, t_min: Scalar, t_max: Scalar)
    ensures
        sphere.nearest_hit(ray, t_min, t_max).is_some() <==> sphere.discriminant(ray)@ >= 0 && (
        in_range(sphere.near_root(ray), t_min, t_max) || in_range(
            sphere.far_root(ray),
            t_min,
            t_max,
        )),
        sphere.nearest_hit(ray, t_min, t_max).is_some() ==> in_range(
            sphere.nearest_hit(ray, t_min, t_max).unwrap().t,
            t_min,
            t_max,
        ),
        sphere.nearest_hit(ray, t_min, t_max).is_some() && in_range(
            sphere.near_root(ray),
            t_min,
            t_max,
        ) ==> sphere.nearest_hit(ray, t_min, t_max).unwrap().t == sphere.near_root(ray),
        sphere.nearest_hit(ray, t_min, t_max).is_some() && !in_range(
            sphere.near_root(ray),
            t_min,
            t_max,
        ) ==> sphere.nearest_hit(ray, t_min, t_max).unwrap().t == sphere.far_root(ray),
        sphere.near_root(ray)@ <= sphere.far_root(ray)@,
{
    lemma_roots_ordered(sphere, ray);
}

/// Lowering the upper end of the range to `bound` keeps the hit where it lies
/// at or below `bound`, and finds none where it lies above.
pub proof fn lemma_sphere_hit_up_to(
    sphere: Sphere,
    ray: Ray,
    t_min: Scalar,
    bound: Scalar,
    t_max: Scalar,
)
    requires
        bound@ <= t_max@,
    ensures
        sphere.nearest_hit(ray, t_min, bound) == up_to(
            sphere.nearest_hit(ray, t_min, t_max),
            bound,
        ),
{
    lemma_roots_ordered(sphere, ray);
}

impl Hittable for Sphere {
    open spec fn hit_spec(&self, ray: Ray, t_min: Scalar, t_max: Scalar) -> Option<HitRecord> {
        self.nearest_hit(ray, t_min, t_max)
    }

    fn hit(self: &Self, ray: &Ray, t_min: Scalar, t_max: Scalar, rec: &mut HitRecord) -> (found:
        bool) {
        let oc = ray.origin - self.center;
        let a = ray.direction.length_squared();
        let half_b = oc.dot(&ray.direction);
        let c = oc.length_squared() - self.radius * self.radius;

        let discriminant = half_b * half_b - a * c;
        if discriminant.units() < 0 {
            return false;
        }
        let sqrtd = discriminant.sqrt();

        let mut root = (half_b.neg() - sqrtd) / a;
        if root.units() <= t_min.units() || t_max.units() < root.units() {
            root = (half_b.neg() + sqrtd) / a;
            if root.units() <= t_min.units() || t_max.units() < root.units() {
                return false;
            }
        }
        rec.t = root;
        rec.point = ray.at(rec.t);
        let outward_normal = (rec.point - self.center) / self.radius;
        rec.set_face_normal(ray, &outward_normal);

        true
    }
}

} // verus!
