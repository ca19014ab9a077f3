//! The pinhole camera.

use crate::ray::Ray;
use crate::scalar::Scalar;
use crate::scalar::ONE_RAW;
use crate::vec3::Vector3;
use vstd::prelude::*;

verus! {

/// A camera at a fixed place that looks down the negative z axis.
#[derive(Clone, Copy, Debug, PartialEq, Eq, Structural)]
pub struct Camera {
    pub origin: Vector3,
    pub lower_left_corner: Vector3,
    pub horizontal: Vector3,
    pub vertical: Vector3,
}

/// Width of the image over its height: sixteen ninths, rounded toward zero.
pub open spec fn aspect_ratio_spec() -> Scalar {
    Scalar::of(16 * ONE_RAW).over(Scalar::of(9 * ONE_RAW))
}

/// Width of the image over its height.
pub fn aspect_ratio() -> (ratio: Scalar)
    ensures
        ratio == aspect_ratio_spec(),
{
    Scalar::from_int(16) / Scalar::from_int(9)
}

/// The height in pixels of an image `width` pixels wide: the width divided
/// by the aspect ratio, cut to a whole number.
pub open spec fn image_height_spec(width: usize) -> int {
    Scalar::of(width * ONE_RAW).over(aspect_ratio_spec()).whole_spec()
}

/// The height in pixels of an image `width` pixels wide.
pub fn image_height(width: usize) -> (height: usize)
    ensures
        height == image_height_spec(width),
        height <= width,
{
    let scaled = Scalar::from_usize(width) / aspect_ratio();
    let whole: i64 = scaled.whole();
    proof {
        let one = ONE_RAW as int;
        let ratio = aspect_ratio_spec()@;
        assert(16 * ONE_RAW * ONE_RAW == 16_000_000_000_000_000_000int);
        assert(16_000_000_000_000_000_000int / 9_000_000_000 == 1_777_777_777);
        assert(ratio == 1_777_777_777);
        let wide = Scalar::of(width * ONE_RAW)@;
        assert(0 <= wide <= width * one);
        assert(wide * one >= 0) by (nonlinear_arith)
            requires
                wide >= 0,
                one > 0,
        ;
        vstd::arithmetic::div_mod::lemma_div_is_ordered_by_denominator(wide * one, one, ratio);
        vstd::arithmetic::div_mod::lemma_div_by_multiple(wide, one);
        vstd::arithmetic::div_mod::lemma_div_pos_is_pos(wide * one, ratio);
        assert(0 <= scaled@ <= wide);
        vstd::arithmetic::div_mod::lemma_div_pos_is_pos(scaled@, one);
        vstd::arithmetic::div_mod::lemma_div_is_ordered(scaled@, width * one, one);
        vstd::arithmetic::div_mod::lemma_div_by_multiple(width as int, one);
        assert(0 <= whole <= width);
    }
    whole as usize
}

impl Camera {
    /// The camera at the origin whose image plane lies `focal_length` in
    /// front of it, is `viewport_height` high and `aspect_ratio` times as
    /// wide, and is centred on the axis of view.
    pub open spec fn from_viewport_spec(
        viewport_height: Scalar,
        aspect_ratio: Scalar,
        focal_length: Scalar,
    ) -> Camera {
        let zero = Scalar::of(0);
        let two = Scalar::of(2 * ONE_RAW);
        let origin = Vector3::zero_spec();
        let horizontal = Vector3 { x: viewport_height.times(aspect_ratio), y: zero, z: zero };
        let vertical = Vector3 { x: zero, y: viewport_height, z: zero };
        let depth = Vector3 { x: zero, y: zero, z: focal_length };
        Camera {
            origin,
            lower_left_corner: origin.minus(horizontal.shrunk(two)).minus(
                vertical.shrunk(two),
            ).minus(depth),
            horizontal,
            vertical,
        }
    }

    /// The camera of `new`: a viewport two units high and sixteen ninths as
    /// wide, one unit in front of the eye.
    pub open spec fn standard() -> Camera {
        Camera::from_viewport_spec(
            Scalar::of(2 * ONE_RAW),
            aspect_ratio_spec(),
            Scalar::of(ONE_RAW as int),
        )
    }

    /// The ray from the eye through the point of the image plane that lies
    /// the fraction `u` along its width and `v` along its height.
    pub open spec fn get_ray_spec(self, u: Scalar, v: Scalar) -> Ray {
        Ray {
            origin: self.origin,
            direction: self.lower_left_corner.plus(self.horizontal.scaled(u)).plus(
                self.vertical.scaled(v),
            ).minus(self.origin),
        }
    }

    /// The camera for a viewport of the given height, shape and distance.
    pub fn from_viewport(
        viewport_height: Scalar,
        aspect_ratio: Scalar,
        focal_length: Scalar,
    ) -> (camera: Camera)
        ensures
            camera == Camera::from_viewport_spec(viewport_height, aspect_ratio, focal_length),
    {
        let viewport_width = viewport_height * aspect_ratio;
        let two = Scalar::from_int(2);

        let origin = Vector3::new(Scalar::zero());
        let horizontal = Vector3 { x: viewport_width, y: Scalar::zero(), z: Scalar::zero() };
        let vertical = Vector3 { x: Scalar::zero(), y: viewport_height, z: Scalar::zero() };
        let lower_left_corner = origin - (horizontal / two) - (vertical / two) - Vector3 {
            x: Scalar::zero(),
            y: Scalar::zero(),
            z: focal_length,
        };

        Camera { origin, lower_left_corner, horizontal, vertical }
    }

    /// The standard camera.
    pub fn new() -> (camera: Camera)
        ensures
            camera == Camera::standard(),
    {
        Camera::from_viewport(Scalar::from_int(2), aspect_ratio(), Scalar::one())
    }

    /// The ray from the eye through the point of the image plane that lies
    /// the fraction `u` along its width and `v` along its height.
    pub fn get_ray(self: &Self, u: Scalar, v: Scalar) -> (ray: Ray)
        ensures
            ray == self.get_ray_spec(u, v),
    {
        Ray {
            origin: self.origin,
            direction: self.lower_left_corner + (self.horizontal * u) + (self.vertical * v)
                - self.origin,
        }
    }
}

} // verus!
