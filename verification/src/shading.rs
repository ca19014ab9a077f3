//! The light that arrives along a ray.
//!
//! The only light is the sky. A ray that misses the scene sees the sky; one
//! that hits a surface is scattered into the half space above it and brings
//! back half of what the scattered ray sees.

use crate::random::RandomSource;
use crate::ray::Ray;
use crate::scalar::lemma_mul_units_fraction;
use crate::scalar::lemma_mul_units_half;
use crate::scalar::lemma_mul_units_one;
use crate::scalar::lemma_mul_units_zero;
use crate::scalar::Scalar;
use crate::scalar::MAX_RAW;
use crate::scalar::ONE_RAW;
use crate::shape::hittable::HitRecord;
use crate::shape::hittable::Hittable;
use crate::shape::hittable_list::nearest;
use crate::shape::hittable_list::HittableList;
use crate::shape::hittable_list::Shape;
use crate::vec3::lemma_unit_components;
use crate::vec3::Vector3;
use vstd::prelude::*;

verus! {

/// The share of the light that a surface passes on, in raw units: a half.
pub const ATTENUATION_RAW: i64 = 500_000_000;

/// The colour of the sky at the horizon: white.
pub open spec fn horizon_spec() -> Vector3 {
    Vector3 {
        x: Scalar::of(ONE_RAW as int),
        y: Scalar::of(ONE_RAW as int),
        z: Scalar::of(ONE_RAW as int),
    }
}

/// The colour of the sky overhead: a light blue.
pub open spec fn zenith_spec() -> Vector3 {
    Vector3 {
        x: Scalar::of(500_000_000),
        y: Scalar::of(700_000_000),
        z: Scalar::of(ONE_RAW as int),
    }
}

/// How far the direction points upward, from zero for straight down to one
/// for straight up.
pub open spec fn sky_blend(ray: Ray) -> Scalar {
    Scalar::of(500_000_000).times(ray.direction.unit_spec().y.plus(Scalar::of(ONE_RAW as int)))
}

/// The colour of the sky in the direction of the ray: between that of the
/// horizon and that overhead, by `sky_blend`.
pub open spec fn sky_spec(ray: Ray) -> Vector3 {
    let t = sky_blend(ray);
    horizon_spec().scaled(Scalar::of(ONE_RAW as int).minus(t)).plus(zenith_spec().scaled(t))
}

/// The ray that leaves a hit toward the point drawn from the unit ball,
/// turned to the side of the surface normal and set upon the hit point.
pub open spec fn scatter_spec(rec: HitRecord, drawn: Vector3) -> Ray {
    let target = rec.point.plus(drawn.toward_spec(rec.normal));
    Ray { origin: rec.point, direction: target.minus(rec.point) }
}

/// The light along `ray` after at most `depth` bounces, where the `k`-th
/// bounce scatters by `draws[k]`.
pub open spec fn radiance(ray: Ray, world: Seq<Shape>, depth: nat, draws: Seq<Vector3>) -> Vector3
    decreases depth,
{
    if depth == 0 {
        Vector3::zero_spec()
    } else {
        match nearest(world, ray, Scalar::of(0), Scalar::of(MAX_RAW as int)) {
            Some(rec) => radiance(
                scatter_spec(rec, draws.first()),
                world,
                (depth - 1) as nat,
                draws.drop_first(),
            ).scaled(Scalar::of(ATTENUATION_RAW as int)),
            None => sky_spec(ray),
        }
    }
}

/// Every channel of the colour lies from zero to `bound`, in raw units.
pub open spec fn within_light(color: Vector3, bound: int) -> bool {
    &&& 0 <= color.x@ <= bound
    &&& 0 <= color.y@ <= bound
    &&& 0 <= color.z@ <= bound
}

/// How many surfaces the light along `ray` has come from: the hits on the
/// way, of which there are at most `depth`.
pub open spec fn bounces(ray: Ray, world: Seq<Shape>, depth: nat, draws: Seq<Vector3>) -> nat
    decreases depth,
{
    if depth == 0 {
        0
    } else {
        match nearest(world, ray, Scalar::of(0), Scalar::of(MAX_RAW as int)) {
            Some(rec) => 1 + bounces(
                scatter_spec(rec, draws.first()),
                world,
                (depth - 1) as nat,
                draws.drop_first(),
            ),
            None => 0,
        }
    }
}

/// One, halved `count` times and rounded down each time, in raw units.
pub open spec fn dimmed(count: nat) -> int
    decreases count,
{
    if count == 0 {
        ONE_RAW as int
    } else {
        dimmed((count - 1) as nat) / 2
    }
}

/// One point of the unit ball for each of `depth` bounces.
pub open spec fn is_trace(draws: Seq<Vector3>, depth: nat) -> bool {
    &&& draws.len() == depth
    &&& forall|k: int| 0 <= k < draws.len() ==> (#[trigger] draws[k]).in_unit_ball()
}

/// With no bounce left, no light arrives.
pub proof fn lemma_radiance_depth_zero(ray: Ray, world: Seq<Shape>, draws: Seq<Vector3>)
    ensures
        radiance(ray, world, 0, draws) == Vector3::zero_spec(),
{
}

/// The blend of the sky lies from zero to one for every ray.
pub proof fn lemma_sky_blend_in_range(ray: Ray)
    ensures
        0 <= sky_blend(ray)@ <= ONE_RAW,
{
    lemma_unit_components(ray.direction);
    let raised = ray.direction.unit_spec().y.plus(Scalar::of(ONE_RAW as int));
    lemma_mul_units_half(raised@);
}

/// Every channel of the sky's colour lies from zero to one, whatever the
/// ray.
pub proof fn lemma_sky_in_range(ray: Ray)
    ensures
        within_light(sky_spec(ray), ONE_RAW as int),
{
    lemma_sky_blend_in_range(ray);
    let t = sky_blend(ray);
    let rest = Scalar::of(ONE_RAW as int).minus(t);
    lemma_mul_units_one(rest@);
    lemma_mul_units_one(t@);
    lemma_mul_units_half(t@);
    lemma_mul_units_fraction(700_000_000, t@, t@);
}

/// The halving never goes below zero.
pub proof fn lemma_dimmed_sign(count: nat)
    ensures
        0 <= dimmed(count) <= ONE_RAW,
    decreases count,
{
    if count > 0 {
        lemma_dimmed_sign((count - 1) as nat);
    }
}

/// Every channel of the light along a ray lies from zero to one, whatever
/// the ray, the scene, the depth and the draws. Each surface on the way
/// halves it: after `k` hits no channel is above one halved `k` times.
pub proof fn lemma_radiance_in_range(ray: Ray, world: Seq<Shape>, depth: nat, draws: Seq<Vector3>)
    ensures
        within_light(radiance(ray, world, depth, draws), ONE_RAW as int),
        within_light(
            radiance(ray, world, depth, draws),
            dimmed(bounces(ray, world, depth, draws)),
        ),
    decreases depth,
{
    lemma_dimmed_sign(bounces(ray, world, depth, draws));
    if depth > 0 {
        match nearest(world, ray, Scalar::of(0), Scalar::of(MAX_RAW as int)) {
            Some(rec) => {
                let next = scatter_spec(rec, draws.first());
                let inner = radiance(next, world, (depth - 1) as nat, draws.drop_first());
                lemma_radiance_in_range(next, world, (depth - 1) as nat, draws.drop_first());
                lemma_mul_units_half(inner.x@);
                lemma_mul_units_half(inner.y@);
                lemma_mul_units_half(inner.z@);
            },
            None => {
                lemma_sky_in_range(ray);
            },
        }
    }
}

/// The colour of the sky in the direction of the ray.
pub fn sky(ray: &Ray) -> (color: Vector3)
    ensures
        color == sky_spec(*ray),
        within_light(color, ONE_RAW as int),
{
    proof {
        lemma_sky_in_range(*ray);
    }
    let unit_direction = ray.direction.unit_vector();
    let t = Scalar::from_raw(500_000_000) * (unit_direction.y + Scalar::one());

    let sky_start = Vector3 { x: Scalar::one(), y: Scalar::one(), z: Scalar::one() };
    let sky_end = Vector3 {
        x: Scalar::from_raw(500_000_000),
        y: Scalar::from_raw(700_000_000),
        z: Scalar::one(),
    };

    sky_start * (Scalar::one() - t) + sky_end * t
}

/// The ray that leaves the hit toward `drawn`, a point of the unit ball.
pub fn scatter(rec: &HitRecord, drawn: Vector3) -> (ray: Ray)
    ensures
        ray == scatter_spec(*rec, drawn),
{
    let target = rec.point + drawn.toward(&rec.normal);
    Ray { origin: rec.point, direction: target - rec.point }
}

/// The light along `ray` after at most `depth` bounces, where the bounces
/// scatter by `draws[used]`, `draws[used + 1]` and so on.
fn follow(ray: &Ray, world: &HittableList, depth: u32, draws: &Vec<Vector3>, used: usize) -> (color:
    Vector3)
    requires
        used + depth <= draws.len(),
    ensures
        color == radiance(*ray, world@, depth as nat, draws@.skip(used as int)),
    decreases depth,
{
    if depth == 0 {
        return Vector3::new(Scalar::zero());
    }
    let mut rec = HitRecord::new();
    if world.hit(ray, Scalar::zero(), Scalar::infinity(), &mut rec) {
        proof {
            assert(draws@.skip(used as int).first() == draws@[used as int]);
            assert(draws@.skip(used as int).drop_first() =~= draws@.skip(used as int + 1));
        }
        let next = scatter(&rec, draws[used]);
        return follow(&next, world, depth - 1, draws, used + 1) * Scalar::from_raw(
            ATTENUATION_RAW,
        );
    }
    sky(ray)
}

/// The light along `ray` after at most `depth` bounces, where the `k`-th
/// bounce scatters by `draws[k]`; nothing where there are fewer draws than
/// `depth`.
pub fn send_ray_along(ray: &Ray, world: &HittableList, depth: u32, draws: &Vec<Vector3>) -> (color:
    Option<Vector3>)
    ensures
        color.is_some() <==> depth <= draws.len(),
        color.is_some() ==> color.unwrap() == radiance(*ray, world@, depth as nat, draws@),
        color.is_some() ==> within_light(color.unwrap(), ONE_RAW as int),
{
    if draws.len() < depth as usize {
        None
    } else {
        proof {
            assert(draws@.skip(0) =~= draws@);
            lemma_radiance_in_range(*ray, world@, depth as nat, draws@);
        }
        Some(follow(ray, world, depth, draws, 0))
    }
}

/// The light along `ray` after at most `depth` bounces, each scattered by a
/// point drawn from `source`.
pub fn send_ray(source: &mut RandomSource, ray: &Ray, world: &HittableList, depth: u32) -> (color:
    Vector3)
    ensures
        exists|draws: Seq<Vector3>|
            is_trace(draws, depth as nat) && color == #[trigger] radiance(
                *ray,
                world@,
                depth as nat,
                draws,
            ),
        depth == 0 ==> color == Vector3::zero_spec(),
        within_light(color, ONE_RAW as int),
    decreases depth,
{
    if depth == 0 {
        proof {
            let none = Seq::<Vector3>::empty();
            assert(is_trace(none, 0));
            assert(Vector3::zero_spec() == radiance(*ray, world@, 0, none));
        }
        return Vector3::new(Scalar::zero());
    }
    let mut rec = HitRecord::new();
    if world.hit(ray, Scalar::zero(), Scalar::infinity(), &mut rec) {
        let drawn = Vector3::random_in_unit_sphere(source);
        let next = scatter(&rec, drawn);
        let incoming = send_ray(source, &next, world, depth - 1);
        let color = incoming * Scalar::from_raw(ATTENUATION_RAW);
        proof {
            let rest = choose|draws: Seq<Vector3>|
                is_trace(draws, (depth - 1) as nat) && incoming == #[trigger] radiance(
                    next,
                    world@,
                    (depth - 1) as nat,
                    draws,
                );
            let draws = seq![drawn] + rest;
            assert(draws.first() == drawn);
            assert(draws.drop_first() =~= rest);
            assert(is_trace(draws, depth as nat));
            assert(color == radiance(*ray, world@, depth as nat, draws));
            lemma_radiance_in_range(*ray, world@, depth as nat, draws);
        }
        return color;
    }
    proof {
        let draws = Seq::new(depth as nat, |k: int| Vector3::zero_spec());
        lemma_mul_units_zero(0);
        assert(is_trace(draws, depth as nat));
        assert(sky_spec(*ray) == radiance(*ray, world@, depth as nat, draws));
    }
    sky(ray)
}

} // verus!
