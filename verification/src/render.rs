//! The work of one worker on one pixel.

use crate::camera::image_height;
use crate::camera::Camera;
use crate::random::RandomSource;
use crate::ray::Ray;
use crate::scalar::Scalar;
use crate::scalar::ONE_RAW;
use crate::shading::is_trace;
use crate::shading::radiance;
use crate::shading::lemma_radiance_in_range;
use crate::shading::send_ray;
use crate::shading::within_light;
use crate::shape::hittable_list::HittableList;
use crate::shape::hittable_list::Shape;
use crate::shape::sphere::Sphere;
use crate::vec3::Vector3;
use vstd::prelude::*;

verus! {

/// What a render is made with.
#[derive(Clone, Copy, Debug, PartialEq, Eq, Structural)]
pub struct Settings {
    /// Width of the image in pixels.
    pub width: usize,
    /// Height of the image in pixels.
    pub height: usize,
    /// How many rays are sent through each pixel.
    pub samples_per_pixel: usize,
    /// How many bounces a ray is followed for.
    pub max_depth: u32,
    /// How many workers share the pixels.
    pub workers: usize,
}

impl Settings {
    /// The standard render: 600 pixels wide and as high as the aspect ratio
    /// of the camera makes it, 100 samples for each pixel, 50 bounces, four
    /// workers.
    pub open spec fn standard_spec() -> Settings {
        Settings { width: 600, height: 337, samples_per_pixel: 100, max_depth: 50, workers: 4 }
    }

    /// The standard render.
    pub fn standard() -> (settings: Settings)
        ensures
            settings == Settings::standard_spec(),
    {
        let width: usize = 600;
        let height = image_height(width);
        proof {
            assert(16 * ONE_RAW * ONE_RAW == 16_000_000_000_000_000_000int);
            assert(16_000_000_000_000_000_000int / 9_000_000_000 == 1_777_777_777);
            assert(600 * ONE_RAW * ONE_RAW == 600_000_000_000_000_000_000int);
            assert(600_000_000_000_000_000_000int / 1_777_777_777 == 337_500_000_147);
            assert(337_500_000_147int / 1_000_000_000 == 337);
        }
        Settings { width, height, samples_per_pixel: 100, max_depth: 50, workers: 4 }
    }
}

/// The standard scene: a small sphere in front of the camera, resting on a
/// very large one that serves as the ground.
pub open spec fn standard_scene_spec() -> Seq<Shape> {
    seq![
        Shape::Sphere(
            Sphere {
                center: Vector3 {
                    x: Scalar::of(0),
                    y: Scalar::of(0),
                    z: Scalar::of(-ONE_RAW),
                },
                radius: Scalar::of(500_000_000),
            },
        ),
        Shape::Sphere(
            Sphere {
                center: Vector3 {
                    x: Scalar::of(0),
                    y: Scalar::of(-100_500_000_000),
                    z: Scalar::of(-ONE_RAW),
                },
                radius: Scalar::of(100 * ONE_RAW),
            },
        ),
    ]
}

/// The standard scene.
pub fn standard_scene() -> (world: HittableList)
    ensures
        world@ == standard_scene_spec(),
{
    let mut world = HittableList::new();
    world.add(
        Shape::Sphere(
            Sphere::new(
                Vector3 { x: Scalar::zero(), y: Scalar::zero(), z: Scalar::from_int(-1) },
                Scalar::from_raw(500_000_000),
            ),
        ),
    );
    world.add(
        Shape::Sphere(
            Sphere::new(
                Vector3 {
                    x: Scalar::zero(),
                    y: Scalar::from_raw(-100_500_000_000),
                    z: Scalar::from_int(-1),
                },
                Scalar::from_int(100),
            ),
        ),
    );
    proof {
        assert(world@ =~= standard_scene_spec());
    }
    world
}

/// The ray through the pixel in column `x` of row `y`, moved within the
/// pixel by the two jitters. Rows are counted from the top, and the image
/// plane from the bottom.
pub open spec fn pixel_ray_spec(
    camera: Camera,
    settings: Settings,
    x: usize,
    y: usize,
    jitter_u: Scalar,
    jitter_v: Scalar,
) -> Ray {
    let u = Scalar::of(x * ONE_RAW).plus(jitter_u).over(
        Scalar::of((settings.width - 1) * ONE_RAW),
    );
    let v = Scalar::of((settings.height - 1 - y) * ONE_RAW).plus(jitter_v).over(
        Scalar::of((settings.height - 1) * ONE_RAW),
    );
    camera.get_ray_spec(u, v)
}

/// A jitter lies at or above zero and below one.
pub open spec fn is_jitter(jitter: Scalar) -> bool {
    0 <= jitter@ < ONE_RAW
}

/// `color` is the light along some jittered ray through the pixel, for some
/// points of the unit ball at its bounces.
pub open spec fn is_sample(
    color: Vector3,
    camera: Camera,
    world: Seq<Shape>,
    settings: Settings,
    x: usize,
    y: usize,
) -> bool {
    exists|jitter_u: Scalar, jitter_v: Scalar, draws: Seq<Vector3>|
        is_jitter(jitter_u) && is_jitter(jitter_v) && is_trace(draws, settings.max_depth as nat)
            && color == #[trigger] radiance(
            pixel_ray_spec(camera, settings, x, y, jitter_u, jitter_v),
            world,
            settings.max_depth as nat,
            draws,
        )
}

/// The sum of the colours, added up in their order.
pub open spec fn sum_spec(colors: Seq<Vector3>) -> Vector3
    decreases colors.len(),
{
    if colors.len() == 0 {
        Vector3::zero_spec()
    } else {
        sum_spec(colors.drop_last()).plus(colors.last())
    }
}

/// Every channel of a sample lies from zero to one.
pub proof fn lemma_sample_in_range(
    color: Vector3,
    camera: Camera,
    world: Seq<Shape>,
    settings: Settings,
    x: usize,
    y: usize,
)
    requires
        is_sample(color, camera, world, settings, x, y),
    ensures
        within_light(color, ONE_RAW as int),
{
    let (jitter_u, jitter_v, draws) = choose|
        jitter_u: Scalar,
        jitter_v: Scalar,
        draws: Seq<Vector3>,
    |
        is_jitter(jitter_u) && is_jitter(jitter_v) && is_trace(draws, settings.max_depth as nat)
            && color == #[trigger] radiance(
            pixel_ray_spec(camera, settings, x, y, jitter_u, jitter_v),
            world,
            settings.max_depth as nat,
            draws,
        );
    lemma_radiance_in_range(
        pixel_ray_spec(camera, settings, x, y, jitter_u, jitter_v),
        world,
        settings.max_depth as nat,
        draws,
    );
}

/// Every channel of a sum of colours whose channels lie from zero to one
/// lies from zero to the number of the colours.
pub proof fn lemma_sum_in_range(colors: Seq<Vector3>)
    requires
        forall|k: int| 0 <= k < colors.len() ==> within_light(#[trigger] colors[k], ONE_RAW as int),
    ensures
        within_light(sum_spec(colors), colors.len() * ONE_RAW),
    decreases colors.len(),
{
    if colors.len() > 0 {
        let front = colors.drop_last();
        assert forall|k: int| 0 <= k < front.len() implies within_light(
            #[trigger] front[k],
            ONE_RAW as int,
        ) by {
            assert(front[k] == colors[k]);
        }
        lemma_sum_in_range(front);
        assert(within_light(colors.last(), ONE_RAW as int));
    }
}

/// The ray through the pixel in column `x` of row `y`, moved within the
/// pixel by the two jitters.
pub fn pixel_ray(
    camera: &Camera,
    settings: &Settings,
    x: usize,
    y: usize,
    jitter_u: Scalar,
    jitter_v: Scalar,
) -> (ray: Ray)
    requires
        x < settings.width,
        y < settings.height,
    ensures
        ray == pixel_ray_spec(*camera, *settings, x, y, jitter_u, jitter_v),
{
    let u = (Scalar::from_usize(x) + jitter_u) / Scalar::from_usize(settings.width - 1);
    let v = (Scalar::from_usize((settings.height - 1) - y) + jitter_v) / Scalar::from_usize(
        settings.height - 1,
    );
    camera.get_ray(u, v)
}

/// The sum of the light of `samples_per_pixel` rays through the pixel in
/// column `x` of row `y`, each jittered within the pixel.
pub fn render_pixel(
    source: &mut RandomSource,
    camera: &Camera,
    world: &HittableList,
    settings: &Settings,
    x: usize,
    y: usize,
) -> (color: Vector3)
    requires
        x < settings.width,
        y < settings.height,
    ensures
        exists|samples: Seq<Vector3>|
            samples.len() == settings.samples_per_pixel && (forall|k: int|
                0 <= k < samples.len() ==> is_sample(
                    #[trigger] samples[k],
                    *camera,
                    world@,
                    *settings,
                    x,
                    y,
                )) && color == #[trigger] sum_spec(samples),
        within_light(color, settings.samples_per_pixel * ONE_RAW),
{
    let mut pixel_color = Vector3::new(Scalar::zero());
    let ghost mut taken = Seq::<Vector3>::empty();
    let mut count: usize = 0;
    while count < settings.samples_per_pixel
        invariant
            x < settings.width,
            y < settings.height,
            count <= settings.samples_per_pixel,
            taken.len() == count,
            forall|k: int|
                0 <= k < taken.len() ==> is_sample(
                    #[trigger] taken[k],
                    *camera,
                    world@,
                    *settings,
                    x,
                    y,
                ),
            pixel_color == sum_spec(taken),
            within_light(pixel_color, count * ONE_RAW),
        decreases settings.samples_per_pixel - count,
    {
        let jitter_u = source.next_scalar(Scalar::zero(), Scalar::one());
        let jitter_v = source.next_scalar(Scalar::zero(), Scalar::one());
        let ray = pixel_ray(camera, settings, x, y, jitter_u, jitter_v);
        let sample = send_ray(source, &ray, world, settings.max_depth);
        pixel_color = pixel_color + sample;
        proof {
            let draws = choose|draws: Seq<Vector3>|
                is_trace(draws, settings.max_depth as nat) && sample == #[trigger] radiance(
                    ray,
                    world@,
                    settings.max_depth as nat,
                    draws,
                );
            assert(sample == radiance(
                pixel_ray_spec(*camera, *settings, x, y, jitter_u, jitter_v),
                world@,
                settings.max_depth as nat,
                draws,
            ));
            assert(is_sample(sample, *camera, world@, *settings, x, y));
            let ghost before = taken;
            taken = taken.push(sample);
            assert(taken.drop_last() =~= before);
        }
        count = count + 1;
    }
    pixel_color
}

} // verus!
