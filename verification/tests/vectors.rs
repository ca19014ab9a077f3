use tinyraytracer::random::RandomSource;
use tinyraytracer::scalar::Scalar;
use tinyraytracer::scalar::MAX_RAW;
use tinyraytracer::scalar::ONE_RAW;
use tinyraytracer::vec3::Vector3;
use tinyraytracer::vec3::DRAW_LIMIT;

fn raw(value: i64) -> Scalar {
    Scalar::from_raw(value)
}

fn vector(x: i64, y: i64, z: i64) -> Vector3 {
    Vector3 { x: Scalar::from_int(x), y: Scalar::from_int(y), z: Scalar::from_int(z) }
}

fn vector_raw(x: i64, y: i64, z: i64) -> Vector3 {
    Vector3 { x: raw(x), y: raw(y), z: raw(z) }
}

#[test]
fn new_repeats_the_scalar() {
    let v = Vector3::new(raw(250_000_000));
    assert_eq!(v, vector_raw(250_000_000, 250_000_000, 250_000_000));
    assert_eq!(Vector3::new(Scalar::zero()), vector(0, 0, 0));
}

#[test]
fn vectors_add_and_subtract_by_component() {
    assert_eq!(vector(1, 2, 3) + vector(10, 20, 30), vector(11, 22, 33));
    assert_eq!(vector(1, 2, 3) - vector(10, 20, 30), vector(-9, -18, -27));
    assert_eq!(-vector(1, -2, 0), vector(-1, 2, 0));
}

#[test]
fn vectors_multiply_and_divide_by_component() {
    assert_eq!(vector(1, 2, 3) * vector(4, 5, 6), vector(4, 10, 18));
    assert_eq!(vector(4, 10, 18) / vector(4, 5, 6), vector(1, 2, 3));
    let halves = vector_raw(500_000_000, ONE_RAW, 1_500_000_000);
    assert_eq!(vector(1, 2, 3) * raw(500_000_000), halves);
    assert_eq!(vector(1, 2, 3) / Scalar::from_int(2), halves);
}

#[test]
fn vector_division_by_zero_saturates_each_component() {
    let v = vector(1, -1, 0) / Scalar::zero();
    assert_eq!(v, vector_raw(MAX_RAW, -MAX_RAW, 0));
    let w = vector(1, 1, 1) / vector(0, 1, 2);
    assert_eq!(w, vector_raw(MAX_RAW, ONE_RAW, 500_000_000));
}

#[test]
fn assigning_operators_change_the_left_side() {
    let mut v = vector(1, 2, 3);
    v += vector(1, 1, 1);
    assert_eq!(v, vector(2, 3, 4));
    v *= vector(2, 2, 2);
    assert_eq!(v, vector(4, 6, 8));
    v *= raw(500_000_000);
    assert_eq!(v, vector(2, 3, 4));
    v /= vector(2, 3, 4);
    assert_eq!(v, vector(1, 1, 1));
    v /= Scalar::from_int(4);
    assert_eq!(v, vector_raw(250_000_000, 250_000_000, 250_000_000));
}

#[test]
fn dividing_in_place_by_a_scalar_uses_the_rounded_inverse() {
    let mut v = vector(3, 3, 3);
    v /= Scalar::from_int(3);
    assert_eq!(v, vector_raw(999_999_999, 999_999_999, 999_999_999));
    assert_eq!(vector(3, 3, 3) / Scalar::from_int(3), vector(1, 1, 1));
}

#[test]
fn dot_product() {
    assert_eq!(vector(1, 2, 3).dot(&vector(4, -5, 6)), Scalar::from_int(12));
    assert_eq!(vector(1, 0, 0).dot(&vector(0, 1, 0)), Scalar::zero());
    assert_eq!(vector(0, 0, -1).dot(&vector(0, 0, 1)), Scalar::from_int(-1));
}

#[test]
fn dot_product_with_the_opposite_vector_is_the_opposite_number() {
    let a = vector_raw(1_234_567_891, -2_345_678_912, 3_456_789_123);
    let b = vector_raw(-987_654_321, 876_543_219, 765_432_198);
    assert_eq!(a.dot(&-b), -a.dot(&b));
    assert_eq!((-a).dot(&b), -a.dot(&b));
}

#[test]
fn cross_product() {
    assert_eq!(vector(1, 0, 0).cross(&vector(0, 1, 0)), vector(0, 0, 1));
    assert_eq!(vector(0, 1, 0).cross(&vector(1, 0, 0)), vector(0, 0, -1));
    assert_eq!(vector(1, 2, 3).cross(&vector(4, 5, 6)), vector(-3, 6, -3));
    assert_eq!(vector(2, 2, 2).cross(&vector(2, 2, 2)), vector(0, 0, 0));
}

#[test]
fn length_and_squared_length() {
    assert_eq!(vector(3, 4, 0).length_squared(), Scalar::from_int(25));
    assert_eq!(vector(3, 4, 0).length(), Scalar::from_int(5));
    assert_eq!(vector(1, 1, 1).length(), raw(1_732_050_807));
    assert_eq!(vector(0, 0, 0).length(), Scalar::zero());
}

#[test]
fn squared_length_saturates() {
    let far = Vector3::new(Scalar::infinity());
    assert_eq!(far.length_squared(), Scalar::infinity());
}

#[test]
fn unit_vector_has_length_one() {
    assert_eq!(vector(0, 0, -7).unit_vector(), vector(0, 0, -1));
    assert_eq!(vector(3, 4, 0).unit_vector(), vector_raw(600_000_000, 800_000_000, 0));
    let u = vector(1, 1, 1).unit_vector();
    assert_eq!(u, vector_raw(577_350_269, 577_350_269, 577_350_269));
}

#[test]
fn unit_vector_of_the_zero_vector_is_zero() {
    assert_eq!(vector(0, 0, 0).unit_vector(), vector(0, 0, 0));
}

#[test]
fn toward_turns_a_vector_to_the_side_of_the_normal() {
    let normal = vector(0, 0, 1);
    let above = vector_raw(100_000_000, 0, 500_000_000);
    let below = vector_raw(100_000_000, 0, -500_000_000);
    let level = vector_raw(100_000_000, 200_000_000, 0);
    assert_eq!(above.toward(&normal), above);
    assert_eq!(below.toward(&normal), -below);
    assert_eq!(level.toward(&normal), -level);
}

#[test]
fn is_in_unit_ball_is_strict() {
    assert!(vector(0, 0, 0).is_in_unit_ball());
    assert!(vector_raw(500_000_000, 500_000_000, 500_000_000).is_in_unit_ball());
    assert!(!vector(1, 0, 0).is_in_unit_ball());
    assert!(vector_raw(999_999_999, 0, 0).is_in_unit_ball());
    assert!(!vector_raw(900_000_000, 900_000_000, 900_000_000).is_in_unit_ball());
}

#[test]
fn random_vectors_lie_in_the_range() {
    let mut source = RandomSource::from_seed(7);
    let min = raw(-250_000_000);
    let max = raw(750_000_000);
    for _ in 0..1000 {
        let v = Vector3::random(&mut source, min, max);
        for component in [v.x, v.y, v.z] {
            assert!(min.units() <= component.units());
            assert!(component.units() < max.units());
        }
    }
}

#[test]
fn random_scalars_take_more_than_one_value() {
    let mut source = RandomSource::from_seed(1);
    let first = source.next_scalar(Scalar::zero(), Scalar::one());
    let mut differs = false;
    let mut above_low = false;
    for _ in 0..100 {
        let next = source.next_scalar(Scalar::zero(), Scalar::one());
        assert!(0 <= next.units() && next.units() < ONE_RAW);
        differs = differs || next != first;
        above_low = above_low || next.units() > 0;
    }
    assert!(differs);
    assert!(above_low);
}

#[test]
fn random_scalar_from_a_range_of_one_value() {
    let mut source = RandomSource::from_seed(3);
    for _ in 0..10 {
        assert_eq!(source.next_scalar(raw(41), raw(42)), raw(41));
    }
}

#[test]
fn random_scalars_cover_the_whole_range() {
    let mut source = RandomSource::from_seed(11);
    let low = raw(-MAX_RAW);
    let high = raw(MAX_RAW);
    let mut negative = false;
    let mut positive = false;
    for _ in 0..200 {
        let drawn = source.next_scalar(low, high);
        assert!(drawn.units() >= -MAX_RAW && drawn.units() < MAX_RAW);
        negative = negative || drawn.units() < 0;
        positive = positive || drawn.units() > 0;
    }
    assert!(negative && positive);
}

#[test]
fn equal_seeds_give_equal_draws() {
    let mut first = RandomSource::from_seed(2024);
    let mut second = RandomSource::from_seed(2024);
    for _ in 0..50 {
        let a = Vector3::random_in_unit_sphere(&mut first);
        let b = Vector3::random_in_unit_sphere(&mut second);
        assert_eq!(a, b);
    }
}

#[test]
fn different_seeds_give_different_draws() {
    let mut first = RandomSource::from_seed(1);
    let mut second = RandomSource::from_seed(2);
    let mut differs = false;
    for _ in 0..20 {
        differs = differs
            || Vector3::random_in_unit_sphere(&mut first)
                != Vector3::random_in_unit_sphere(&mut second);
    }
    assert!(differs);
}

#[test]
fn random_points_lie_in_the_unit_ball() {
    assert_eq!(DRAW_LIMIT, 128);
    let mut source = RandomSource::from_seed(99);
    let mut off_centre = false;
    for _ in 0..1000 {
        let point = Vector3::random_in_unit_sphere(&mut source);
        assert!(point.is_in_unit_ball());
        assert!(point.length_squared().units() < ONE_RAW);
        off_centre = off_centre || point != Vector3::new(Scalar::zero());
    }
    assert!(off_centre);
}

#[test]
fn random_unit_vectors_have_length_one() {
    let mut source = RandomSource::from_seed(5);
    for _ in 0..1000 {
        let direction = Vector3::random_unit_vector(&mut source);
        let length = direction.length().units();
        assert!((length - ONE_RAW).abs() < 1_000, "length {}", length);
    }
}

#[test]
fn random_hemisphere_points_do_not_point_away_from_the_normal() {
    let mut source = RandomSource::from_seed(6);
    let normals = [vector(0, 0, 1), vector(0, -1, 0), vector_raw(600_000_000, 0, -800_000_000)];
    for normal in normals {
        for _ in 0..500 {
            let point = Vector3::random_in_hemisphere(&mut source, &normal);
            assert!(point.is_in_unit_ball());
            assert!(point.dot(&normal).units() >= 0);
        }
    }
}

#[test]
fn norm_is_never_less_than_a_component() {
    let slightly_long = vector_raw(0, -300_000_001, 0);
    assert_eq!(slightly_long.length(), raw(300_000_000));
    assert_eq!(slightly_long.norm(), raw(300_000_001));

    let short = vector_raw(0, 10_000, 0);
    assert_eq!(short.length_squared(), Scalar::zero());
    assert_eq!(short.length(), Scalar::zero());
    assert_eq!(short.norm(), raw(10_000));

    assert_eq!(vector(3, 4, 0).norm(), Scalar::from_int(5));
    assert_eq!(vector(1, 1, 1).norm(), raw(1_732_050_807));
    assert_eq!(vector(0, 0, 0).norm(), Scalar::zero());
    assert_eq!(vector_raw(MAX_RAW, 0, 0).length(), raw(96_038_388_349_944));
    assert_eq!(vector_raw(MAX_RAW, 0, 0).norm(), raw(MAX_RAW));
}

#[test]
fn unit_vector_of_a_short_vector_keeps_its_direction() {
    assert_eq!(vector_raw(0, 10_000, 0).unit_vector(), vector(0, 1, 0));
    assert_eq!(vector_raw(1, 0, 0).unit_vector(), vector(1, 0, 0));
    assert_eq!(vector_raw(0, 0, -1).unit_vector(), vector(0, 0, -1));
    assert_eq!(vector_raw(3, -4, 10_000).unit_vector(), vector_raw(300_000, -400_000, ONE_RAW));
    assert_eq!(
        vector_raw(-20_000, 30_000, -5).unit_vector(),
        vector_raw(-666_666_666, ONE_RAW, -166_666)
    );
}

#[test]
fn unit_vector_components_lie_between_minus_one_and_one() {
    assert_eq!(vector_raw(0, -300_000_001, 0).unit_vector(), vector(0, -1, 0));
    assert_eq!(Vector3::new(Scalar::infinity()).unit_vector(), vector(1, 1, 1));
    assert_eq!(vector_raw(MAX_RAW, 0, -MAX_RAW).unit_vector(), vector(1, 0, -1));
    assert_eq!(
        Vector3::new(raw(300_000_001)).unit_vector(),
        vector_raw(577_350_271, 577_350_271, 577_350_271)
    );

    let mut source = RandomSource::from_seed(8);
    let spans = [1, 7, 1_000, 31_623, 300_000_001, ONE_RAW, 1_000_000_000_000, MAX_RAW];
    for span in spans {
        for _ in 0..200 {
            let v = Vector3::random(&mut source, raw(-span), raw(span));
            let u = v.unit_vector();
            for component in [u.x, u.y, u.z] {
                assert!(component.units().abs() <= ONE_RAW, "{:?} of {:?}", u, v);
            }
        }
    }
}
