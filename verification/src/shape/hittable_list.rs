//! Scenes: lists of shapes, tested as one surface.

use crate::ray::Ray;
use crate::scalar::Scalar;
use crate::shape::hittable::closer;
use crate::shape::hittable::in_range;
use crate::shape::hittable::up_to;
use crate::shape::hittable::HitRecord;
use crate::shape::hittable::Hittable;
use crate::shape::sphere::lemma_hit_iff_root_in_range;
use crate::shape::sphere::lemma_sphere_hit_up_to;
use crate::shape::sphere::Sphere;
use vstd::prelude::*;

verus! {

/// The kinds of surface that a scene can hold.
pub enum Shape {
    /// A sphere.
    Sphere(Sphere),
    /// A scene of its own, hit where any of its shapes is.
    List(HittableList),
}

/// A scene: shapes in the order in which they were added.
pub struct HittableList {
    objects: Vec<Shape>,
}

impl View for HittableList {
    type V = Seq<Shape>;

    /// The shapes in the order in which they were added.
    closed spec fn view(&self) -> Seq<Shape> {
        self.objects@
    }
}

/// The hit of the ray on one shape.
pub open spec fn shape_hit(shape: Shape, ray: Ray, t_min: Scalar, t_max: Scalar) -> Option<
    HitRecord,
>
    decreases shape,
{
    match shape {
        Shape::Sphere(sphere) => sphere.nearest_hit(ray, t_min, t_max),
        Shape::List(list) => nearest(list@, ray, t_min, t_max),
    }
}

/// The nearest of the hits of the ray on each of the shapes, every shape
/// tested on the whole range. Of two hits at one parameter, that on the later
/// shape counts.
pub open spec fn nearest(shapes: Seq<Shape>, ray: Ray, t_min: Scalar, t_max: Scalar) -> Option<
    HitRecord,
>
    decreases shapes,
{
    if shapes.len() == 0 {
        None
    } else {
        closer(
            nearest(shapes.drop_last(), ray, t_min, t_max),
            shape_hit(shapes.last(), ray, t_min, t_max),
        )
    }
}


/// What a shape or a scene reports as hit lies in the range it was asked for.
pub proof fn lemma_shape_hit_in_range(shape: Shape, ray: Ray, t_min: Scalar, t_max: Scalar)
    ensures
        shape_hit(shape, ray, t_min, t_max).is_some() ==> in_range(
            shape_hit(shape, ray, t_min, t_max).unwrap().t,
            t_min,
            t_max,
        ),
    decreases shape,
{
    match shape {
        Shape::Sphere(sphere) => {
            lemma_hit_iff_root_in_range(sphere, ray, t_min, t_max);
        },
        Shape::List(list) => {
            lemma_nearest_in_range(list@, ray, t_min, t_max);
        },
    }
}

/// The same of a scene.
pub proof fn lemma_nearest_in_range(shapes: Seq<Shape>, ray: Ray, t_min: Scalar, t_max: Scalar)
    ensures
        nearest(shapes, ray, t_min, t_max).is_some() ==> in_range(
            nearest(shapes, ray, t_min, t_max).unwrap().t,
            t_min,
            t_max,
        ),
    decreases shapes,
{
    if shapes.len() > 0 {
        lemma_nearest_in_range(shapes.drop_last(), ray, t_min, t_max);
        lemma_shape_hit_in_range(shapes.last(), ray, t_min, t_max);
    }
}

/// Lowering the upper end of the range to `bound` keeps the hit of a shape
/// where it lies at or below `bound`, and finds none where it lies above.
pub proof fn lemma_shape_hit_up_to(
    shape: Shape,
    ray: Ray,
    t_min: Scalar,
    bound: Scalar,
    t_max: Scalar,
)
    requires
        bound@ <= t_max@,
    ensures
        shape_hit(shape, ray, t_min, bound) == up_to(shape_hit(shape, ray, t_min, t_max), bound),
    decreases shape,
{
    match shape {
        Shape::Sphere(sphere) => {
            lemma_sphere_hit_up_to(sphere, ray, t_min, bound, t_max);
        },
        Shape::List(list) => {
            lemma_nearest_up_to(list@, ray, t_min, bound, t_max);
        },
    }
}

/// The same of a scene.
pub proof fn lemma_nearest_up_to(
    shapes: Seq<Shape>,
    ray: Ray,
    t_min: Scalar,
    bound: Scalar,
    t_max: Scalar,
)
    requires
        bound@ <= t_max@,
    ensures
        nearest(shapes, ray, t_min, bound) == up_to(nearest(shapes, ray, t_min, t_max), bound),
    decreases shapes,
{
    if shapes.len() > 0 {
        lemma_nearest_up_to(shapes.drop_last(), ray, t_min, bound, t_max);
        lemma_shape_hit_up_to(shapes.last(), ray, t_min, bound, t_max);
    }
}

/// `hit` is the hit of one of the shapes, and no shape is hit nearer.
pub open spec fn is_minimum(
    hit: HitRecord,
    shapes: Seq<Shape>,
    ray: Ray,
    t_min: Scalar,
    t_max: Scalar,
) -> bool {
    &&& exists|i: int|
        0 <= i < shapes.len() && #[trigger] shape_hit(shapes[i], ray, t_min, t_max) == Some(hit)
    &&& forall|j: int|
        0 <= j < shapes.len() && (#[trigger] shape_hit(shapes[j], ray, t_min, t_max)).is_some()
            ==> hit.t@ <= shape_hit(shapes[j], ray, t_min, t_max).unwrap().t@
}

/// The hit of a scene is the hit with the least parameter among the hits of
/// its shapes, each tested alone on the whole range; the scene is missed
/// exactly where every shape is.
pub proof fn lemma_nearest_is_minimum(shapes: Seq<Shape>, ray: Ray, t_min: Scalar, t_max: Scalar)
    ensures
        nearest(shapes, ray, t_min, t_max).is_none() <==> forall|i: int|
            0 <= i < shapes.len() ==> (#[trigger] shape_hit(
                shapes[i],
                ray,
                t_min,
                t_max,
            )).is_none(),
        nearest(shapes, ray, t_min, t_max).is_some() ==> is_minimum(
            nearest(shapes, ray, t_min, t_max).unwrap(),
            shapes,
            ray,
            t_min,
            t_max,
        ),
    decreases shapes.len(),
{
    if shapes.len() > 0 {
        let front = shapes.drop_last();
        let last = shapes.len() - 1;
        lemma_nearest_is_minimum(front, ray, t_min, t_max);
        assert forall|i: int| 0 <= i < front.len() implies front[i] == shapes[i] by {}
        let found = nearest(shapes, ray, t_min, t_max);
        let before = nearest(front, ray, t_min, t_max);
        let candidate = shape_hit(shapes[last], ray, t_min, t_max);
        if found.is_some() {
            let hit = found.unwrap();
            if found == candidate {
                assert(shape_hit(shapes[last], ray, t_min, t_max) == Some(hit));
            } else {
                let i = choose|i: int|
                    0 <= i < front.len() && #[trigger] shape_hit(front[i], ray, t_min, t_max)
                        == Some(hit);
                assert(shape_hit(shapes[i], ray, t_min, t_max) == Some(hit));
            }
            assert forall|j: int|
                0 <= j < shapes.len() && (#[trigger] shape_hit(
                    shapes[j],
                    ray,
                    t_min,
                    t_max,
                )).is_some() implies hit.t@ <= shape_hit(
                shapes[j],
                ray,
                t_min,
                t_max,
            ).unwrap().t@ by {
                if j < last {
                    assert(shape_hit(front[j], ray, t_min, t_max).is_some());
                }
            }
        } else {
            assert forall|i: int| 0 <= i < shapes.len() implies (#[trigger] shape_hit(
                shapes[i],
                ray,
                t_min,
                t_max,
            )).is_none() by {
                if i < last {
                    assert(shape_hit(front[i], ray, t_min, t_max).is_none());
                }
            }
        }
        if before.is_some() || candidate.is_some() {
            if candidate.is_some() {
                assert(shape_hit(shapes[last], ray, t_min, t_max).is_some());
            } else {
                let i = choose|i: int|
                    0 <= i < front.len() && !(#[trigger] shape_hit(
                        front[i],
                        ray,
                        t_min,
                        t_max,
                    )).is_none();
                assert(shape_hit(shapes[i], ray, t_min, t_max).is_some());
            }
        }
    }
}

impl Hittable for Shape {
    open spec fn hit_spec(&self, ray: Ray, t_min: Scalar, t_max: Scalar) -> Option<HitRecord> {
        shape_hit(*self, ray, t_min, t_max)
    }

    fn hit(self: &Self, ray: &Ray, t_min: Scalar, t_max: Scalar, rec: &mut HitRecord) -> (found:
        bool)
        decreases self,
    {
        match self {
            Shape::Sphere(sphere) => sphere.hit(ray, t_min, t_max, rec),
            Shape::List(list) => list.hit(ray, t_min, t_max, rec),
        }
    }
}

impl Hittable for HittableList {
    open spec fn hit_spec(&self, ray: Ray, t_min: Scalar, t_max: Scalar) -> Option<HitRecord> {
        nearest(self@, ray, t_min, t_max)
    }

    /// Tests every shape in turn, each on the range that ends at the nearest
    /// hit found so far.
    fn hit(self: &Self, ray: &Ray, t_min: Scalar, t_max: Scalar, rec: &mut HitRecord) -> (found:
        bool)
        decreases self,
    {
        let mut temp_rec = HitRecord::new();
        let mut hit_anything = false;
        let mut closest_so_far = t_max;
        let ghost before = *rec;

        let count: usize = self.objects.len();
        let mut index: usize = 0;
        while index < count
            invariant
                index <= count,
                count == self.objects.len(),
                closest_so_far@ <= t_max@,
                hit_anything == nearest(self@.take(index as int), *ray, t_min, t_max).is_some(),
                hit_anything ==> *rec == nearest(
                    self@.take(index as int),
                    *ray,
                    t_min,
                    t_max,
                ).unwrap() && closest_so_far == rec.t,
                !hit_anything ==> *rec == before && closest_so_far == t_max,
            decreases count - index,
        {
            let ghost seen = self@.take(index as int);
            let ghost next = self@.take(index as int + 1);
            proof {
                assert(next.drop_last() =~= seen);
                assert(next.last() == self@[index as int]);
                lemma_shape_hit_up_to(self@[index as int], *ray, t_min, closest_so_far, t_max);
                lemma_shape_hit_in_range(self@[index as int], *ray, t_min, t_max);
                lemma_nearest_in_range(seen, *ray, t_min, t_max);
            }
            if self.objects[index].hit(ray, t_min, closest_so_far, &mut temp_rec) {
                hit_anything = true;
                closest_so_far = temp_rec.t;
                *rec = temp_rec;
            }
            index = index + 1;
        }
        proof {
            assert(self@.take(count as int) =~= self@);
        }
        hit_anything
    }
}

impl HittableList {
    /// The empty scene.
    pub fn new() -> (list: HittableList)
        ensures
            list@ == Seq::<Shape>::empty(),
    {
        HittableList { objects: Vec::new() }
    }

    /// Adds a shape at the end of the scene.
    pub fn add(self: &mut Self, object: Shape)
        ensures
            final(self)@ == old(self)@.push(object),
    {
        self.objects.push(object);
    }

    /// Removes every shape.
    pub fn clear(self: &mut Self)
        ensures
            final(self)@ == Seq::<Shape>::empty(),
    {
        self.objects.clear();
    }
}

} // verus!
