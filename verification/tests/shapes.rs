use tinyraytracer::ray::Ray;
use tinyraytracer::scalar::Scalar;
use tinyraytracer::shape::hittable::HitRecord;
use tinyraytracer::shape::hittable::Hittable;
use tinyraytracer::shape::hittable_list::HittableList;
use tinyraytracer::shape::hittable_list::Shape;
use tinyraytracer::shape::sphere::Sphere;
use tinyraytracer::vec3::Vector3;

fn raw(value: i64) -> Scalar {
    Scalar::from_raw(value)
}

fn vector_raw(x: i64, y: i64, z: i64) -> Vector3 {
    Vector3 { x: raw(x), y: raw(y), z: raw(z) }
}

const ONE: i64 = 1_000_000_000;
const HALF: i64 = 500_000_000;

fn small_sphere() -> Sphere {
    Sphere::new(vector_raw(0, 0, -ONE), raw(HALF))
}

fn sphere_at_depth(z: i64) -> Sphere {
    Sphere::new(vector_raw(0, 0, z), raw(HALF))
}

fn down_the_axis() -> Ray {
    Ray::new(vector_raw(0, 0, 0), vector_raw(0, 0, -ONE))
}

fn marked_record() -> HitRecord {
    HitRecord {
        point: vector_raw(1, 2, 3),
        normal: vector_raw(4, 5, 6),
        t: raw(7),
        front_face: true,
    }
}

fn try_hit<S: Hittable>(shape: &S, ray: &Ray, t_min: i64, t_max: i64) -> Option<HitRecord> {
    let mut rec = marked_record();
    if shape.hit(ray, raw(t_min), raw(t_max), &mut rec) {
        Some(rec)
    } else {
        assert_eq!(rec, marked_record());
        None
    }
}

#[test]
fn ray_at_walks_along_the_direction() {
    let ray = Ray::new(vector_raw(ONE, 2 * ONE, 3 * ONE), vector_raw(0, -ONE, 2 * ONE));
    assert_eq!(ray.origin, vector_raw(ONE, 2 * ONE, 3 * ONE));
    assert_eq!(ray.direction, vector_raw(0, -ONE, 2 * ONE));
    assert_eq!(ray.at(Scalar::zero()), ray.origin);
    assert_eq!(ray.at(raw(HALF)), vector_raw(ONE, 1_500_000_000, 4 * ONE));
    assert_eq!(ray.at(raw(-2 * ONE)), vector_raw(ONE, 4 * ONE, -ONE));
}

#[test]
fn new_record_is_blank() {
    let rec = HitRecord::new();
    assert_eq!(rec.point, vector_raw(0, 0, 0));
    assert_eq!(rec.normal, vector_raw(0, 0, 0));
    assert_eq!(rec.t, Scalar::zero());
    assert!(!rec.front_face);
}

#[test]
fn face_normal_is_turned_against_the_ray() {
    let ray = down_the_axis();
    let mut rec = marked_record();

    rec.set_face_normal(&ray, &vector_raw(0, 0, ONE));
    assert!(rec.front_face);
    assert_eq!(rec.normal, vector_raw(0, 0, ONE));

    rec.set_face_normal(&ray, &vector_raw(0, 0, -ONE));
    assert!(!rec.front_face);
    assert_eq!(rec.normal, vector_raw(0, 0, ONE));

    assert_eq!(rec.point, vector_raw(1, 2, 3));
    assert_eq!(rec.t, raw(7));
}

#[test]
fn face_normal_across_the_ray_counts_as_back() {
    let ray = down_the_axis();
    let mut rec = HitRecord::new();
    rec.set_face_normal(&ray, &vector_raw(ONE, 0, 0));
    assert!(!rec.front_face);
    assert_eq!(rec.normal, vector_raw(-ONE, 0, 0));
}

#[test]
fn stored_normal_never_points_along_the_ray() {
    let directions = [
        vector_raw(0, 0, -ONE),
        vector_raw(250_000_000, -ONE, 333_333_333),
        vector_raw(-ONE, ONE, ONE),
    ];
    let normals = [
        vector_raw(0, 0, ONE),
        vector_raw(600_000_000, 0, -800_000_000),
        vector_raw(-577_350_269, 577_350_269, 577_350_269),
        vector_raw(0, 0, 0),
    ];
    for direction in directions {
        for normal in normals {
            let ray = Ray::new(vector_raw(0, 0, 0), direction);
            let mut rec = HitRecord::new();
            rec.set_face_normal(&ray, &normal);
            assert_eq!(rec.front_face, direction.dot(&normal).units() < 0);
            assert!(direction.dot(&rec.normal).units() <= 0);
        }
    }
}

#[test]
fn sphere_is_hit_head_on() {
    let rec = try_hit(&small_sphere(), &down_the_axis(), 0, i64::MAX).unwrap();
    assert_eq!(rec.t, raw(HALF));
    assert_eq!(rec.point, vector_raw(0, 0, -HALF));
    assert_eq!(rec.normal, vector_raw(0, 0, ONE));
    assert!(rec.front_face);
}

#[test]
fn sphere_is_hit_off_the_axis() {
    let ray = Ray::new(vector_raw(0, 0, 0), vector_raw(250_000_000, 0, -ONE));
    let rec = try_hit(&small_sphere(), &ray, 0, i64::MAX).unwrap();
    assert_eq!(rec.t, raw(516_993_968));
    assert_eq!(rec.point, vector_raw(129_248_492, 0, -516_993_968));
    assert_eq!(rec.normal, vector_raw(258_496_984, 0, 966_012_064));
    assert!(rec.front_face);
}

#[test]
fn sphere_is_missed() {
    let ray = Ray::new(vector_raw(0, 0, 0), vector_raw(0, ONE, 0));
    assert_eq!(try_hit(&small_sphere(), &ray, 0, i64::MAX), None);
}

#[test]
fn sphere_behind_the_ray_is_missed() {
    let ray = Ray::new(vector_raw(0, 0, 0), vector_raw(0, 0, ONE));
    assert_eq!(try_hit(&small_sphere(), &ray, 0, i64::MAX), None);
}

#[test]
fn direction_need_not_have_length_one() {
    let ray = Ray::new(vector_raw(0, 0, 0), vector_raw(0, 0, -2 * ONE));
    let rec = try_hit(&small_sphere(), &ray, 0, i64::MAX).unwrap();
    assert_eq!(rec.t, raw(250_000_000));
    assert_eq!(rec.point, vector_raw(0, 0, -HALF));
}

#[test]
fn ray_from_inside_leaves_through_the_far_root() {
    let ray = Ray::new(vector_raw(0, 0, -ONE), vector_raw(0, 0, -ONE));
    let rec = try_hit(&small_sphere(), &ray, 0, i64::MAX).unwrap();
    assert_eq!(rec.t, raw(HALF));
    assert_eq!(rec.point, vector_raw(0, 0, -1_500_000_000));
    assert!(!rec.front_face);
    assert_eq!(rec.normal, vector_raw(0, 0, ONE));
}

#[test]
fn sphere_entered_from_behind() {
    let ray = Ray::new(vector_raw(0, 0, -3 * ONE), vector_raw(0, 0, ONE));
    let rec = try_hit(&small_sphere(), &ray, 0, i64::MAX).unwrap();
    assert_eq!(rec.t, raw(1_500_000_000));
    assert_eq!(rec.normal, vector_raw(0, 0, -ONE));
    assert!(rec.front_face);
}

#[test]
fn near_root_is_taken_when_both_are_in_range() {
    let rec = try_hit(&small_sphere(), &down_the_axis(), 0, 2 * ONE).unwrap();
    assert_eq!(rec.t, raw(HALF));
}

#[test]
fn far_root_is_taken_when_the_near_one_is_out_of_range() {
    let rec = try_hit(&small_sphere(), &down_the_axis(), 600_000_000, i64::MAX).unwrap();
    assert_eq!(rec.t, raw(1_500_000_000));
    assert_eq!(rec.point, vector_raw(0, 0, -1_500_000_000));
    assert_eq!(rec.normal, vector_raw(0, 0, ONE));
    assert!(!rec.front_face);
}

#[test]
fn range_is_open_below() {
    let rec = try_hit(&small_sphere(), &down_the_axis(), HALF, i64::MAX).unwrap();
    assert_eq!(rec.t, raw(1_500_000_000));
    let just_below = try_hit(&small_sphere(), &down_the_axis(), HALF - 1, i64::MAX).unwrap();
    assert_eq!(just_below.t, raw(HALF));
    assert_eq!(try_hit(&small_sphere(), &down_the_axis(), 1_500_000_000, i64::MAX), None);
}

#[test]
fn range_is_closed_above() {
    let rec = try_hit(&small_sphere(), &down_the_axis(), 0, HALF).unwrap();
    assert_eq!(rec.t, raw(HALF));
    assert_eq!(try_hit(&small_sphere(), &down_the_axis(), 0, HALF - 1), None);
    let far = try_hit(&small_sphere(), &down_the_axis(), HALF, 1_500_000_000).unwrap();
    assert_eq!(far.t, raw(1_500_000_000));
}

#[test]
fn no_root_in_range_is_a_miss() {
    assert_eq!(try_hit(&small_sphere(), &down_the_axis(), 0, 400_000_000), None);
    assert_eq!(try_hit(&small_sphere(), &down_the_axis(), 600_000_000, 1_400_000_000), None);
    assert_eq!(try_hit(&small_sphere(), &down_the_axis(), 1_500_000_000, i64::MAX), None);
}

#[test]
fn grazing_ray_touches_the_sphere() {
    let ray = Ray::new(vector_raw(HALF, 0, 0), vector_raw(0, 0, -ONE));
    let rec = try_hit(&small_sphere(), &ray, 0, i64::MAX).unwrap();
    assert_eq!(rec.t, raw(ONE));
    assert_eq!(rec.point, vector_raw(HALF, 0, -ONE));
    assert!(!rec.front_face);
    assert_eq!(rec.normal, vector_raw(-ONE, 0, 0));
}

#[test]
fn ray_without_direction_hits_nothing() {
    let outside = Ray::new(vector_raw(0, 0, 0), vector_raw(0, 0, 0));
    assert_eq!(try_hit(&small_sphere(), &outside, 0, i64::MAX), None);
    let inside = Ray::new(vector_raw(0, 0, -ONE), vector_raw(0, 0, 0));
    assert_eq!(try_hit(&small_sphere(), &inside, 0, i64::MAX), None);
}

#[test]
fn large_sphere_is_hit_at_a_slant() {
    let ground = Sphere::new(vector_raw(0, -100_500_000_000, -ONE), raw(100 * ONE));
    let ray = Ray::new(vector_raw(0, 0, 0), vector_raw(0, -ONE, -ONE));
    let rec = try_hit(&ground, &ray, 0, i64::MAX).unwrap();
    assert_eq!(rec.t, raw(501_243_796));
    assert_eq!(rec.point, vector_raw(0, -501_243_796, -501_243_796));
    assert_eq!(rec.normal, vector_raw(0, 999_987_562, 4_987_562));
    assert!(rec.front_face);
    assert_eq!(try_hit(&ground, &down_the_axis(), 0, i64::MAX), None);
}

#[test]
fn sphere_keeps_its_centre_and_radius() {
    let sphere = Sphere::new(vector_raw(1, 2, 3), raw(4));
    assert_eq!(sphere.center, vector_raw(1, 2, 3));
    assert_eq!(sphere.radius, raw(4));
}

#[test]
fn empty_scene_is_never_hit() {
    let world = HittableList::new();
    assert_eq!(try_hit(&world, &down_the_axis(), 0, i64::MAX), None);
}

#[test]
fn scene_reports_the_nearest_hit() {
    let mut world = HittableList::new();
    world.add(Shape::Sphere(sphere_at_depth(-3 * ONE)));
    world.add(Shape::Sphere(sphere_at_depth(-ONE)));
    world.add(Shape::Sphere(sphere_at_depth(-5 * ONE)));
    let rec = try_hit(&world, &down_the_axis(), 0, i64::MAX).unwrap();
    assert_eq!(rec.t, raw(HALF));
    assert_eq!(rec.point, vector_raw(0, 0, -HALF));
}

#[test]
fn scene_hit_is_the_least_of_the_single_hits() {
    let spheres = [
        Sphere::new(vector_raw(0, 0, -4 * ONE), raw(ONE)),
        Sphere::new(vector_raw(300_000_000, 0, -2 * ONE), raw(HALF)),
        Sphere::new(vector_raw(0, 5 * ONE, -ONE), raw(HALF)),
        Sphere::new(vector_raw(-200_000_000, 100_000_000, -7 * ONE), raw(2 * ONE)),
    ];
    let rays = [
        down_the_axis(),
        Ray::new(vector_raw(0, 0, 0), vector_raw(100_000_000, 0, -ONE)),
        Ray::new(vector_raw(0, 0, 0), vector_raw(0, ONE, -200_000_000)),
        Ray::new(vector_raw(0, 0, 0), vector_raw(0, -ONE, 0)),
    ];
    let mut world = HittableList::new();
    for sphere in spheres {
        world.add(Shape::Sphere(sphere));
    }
    for ray in rays {
        let mut least: Option<HitRecord> = None;
        for sphere in spheres {
            if let Some(single) = try_hit(&sphere, &ray, 1_000_000, 50 * ONE) {
                let closer = match least {
                    Some(best) => single.t.units() <= best.t.units(),
                    None => true,
                };
                if closer {
                    least = Some(single);
                }
            }
        }
        assert_eq!(try_hit(&world, &ray, 1_000_000, 50 * ONE), least);
    }
}

#[test]
fn scene_respects_the_range() {
    let mut world = HittableList::new();
    world.add(Shape::Sphere(sphere_at_depth(-ONE)));
    world.add(Shape::Sphere(sphere_at_depth(-3 * ONE)));
    let rec = try_hit(&world, &down_the_axis(), 1_500_000_000, i64::MAX).unwrap();
    assert_eq!(rec.t, raw(2_500_000_000));
    assert_eq!(try_hit(&world, &down_the_axis(), 0, 400_000_000), None);
    let last = try_hit(&world, &down_the_axis(), 2_500_000_000, i64::MAX).unwrap();
    assert_eq!(last.t, raw(3_500_000_000));
}

#[test]
fn later_shape_wins_a_tie() {
    let outer = Sphere::new(vector_raw(0, 0, -2 * ONE), raw(ONE));
    let inner = Sphere::new(vector_raw(0, 0, -1_500_000_000), raw(HALF));
    let ray = down_the_axis();
    let on_outer = try_hit(&outer, &ray, 0, i64::MAX).unwrap();
    let on_inner = try_hit(&inner, &ray, 0, i64::MAX).unwrap();
    assert_eq!(on_outer.t, raw(ONE));
    assert_eq!(on_inner.t, raw(ONE));

    let mut first_outer = HittableList::new();
    first_outer.add(Shape::Sphere(outer));
    first_outer.add(Shape::Sphere(inner));
    assert_eq!(try_hit(&first_outer, &ray, 0, i64::MAX), Some(on_inner));

    let mut first_inner = HittableList::new();
    first_inner.add(Shape::Sphere(inner));
    first_inner.add(Shape::Sphere(outer));
    assert_eq!(try_hit(&first_inner, &ray, 0, i64::MAX), Some(on_outer));
}

#[test]
fn scene_within_a_scene() {
    let mut inner = HittableList::new();
    inner.add(Shape::Sphere(sphere_at_depth(-5 * ONE)));
    inner.add(Shape::Sphere(sphere_at_depth(-2 * ONE)));
    let mut world = HittableList::new();
    world.add(Shape::Sphere(sphere_at_depth(-3 * ONE)));
    world.add(Shape::List(inner));
    let rec = try_hit(&world, &down_the_axis(), 0, i64::MAX).unwrap();
    assert_eq!(rec.t, raw(1_500_000_000));

    let shape = Shape::Sphere(sphere_at_depth(-ONE));
    assert_eq!(try_hit(&shape, &down_the_axis(), 0, i64::MAX).unwrap().t, raw(HALF));
    let empty = Shape::List(HittableList::new());
    assert_eq!(try_hit(&empty, &down_the_axis(), 0, i64::MAX), None);
}

#[test]
fn clear_empties_the_scene() {
    let mut world = HittableList::new();
    world.add(Shape::Sphere(small_sphere()));
    assert!(try_hit(&world, &down_the_axis(), 0, i64::MAX).is_some());
    world.clear();
    assert_eq!(try_hit(&world, &down_the_axis(), 0, i64::MAX), None);
    world.add(Shape::Sphere(sphere_at_depth(-3 * ONE)));
    assert_eq!(try_hit(&world, &down_the_axis(), 0, i64::MAX).unwrap().t, raw(2_500_000_000));
}
