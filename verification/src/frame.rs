//! The frame buffer, and the way from summed light to bytes.

use crate::scalar::lemma_floor_sqrt_unique;
use crate::scalar::Scalar;
use crate::scalar::ONE_RAW;
use crate::vec3::Vector3;
use vstd::prelude::*;

verus! {

/// The factor from a channel between zero and one to a byte, in raw units:
/// 255.999.
pub const BYTE_SCALE_RAW: i64 = 255_999_000_000;

/// The brightest byte as a scalar, in raw units: 255.
pub const BYTE_MAX_RAW: i64 = 255_000_000_000;

/// The byte for one channel of a pixel: the sum over the samples is divided
/// by their number, the root is taken for gamma two, and the result is scaled
/// to bytes, held between 0 and 255 and cut to a whole number.
pub open spec fn channel_byte(sum: Scalar, samples: Scalar) -> u8 {
    sum.over(samples).sqrt_spec().times(Scalar::of(BYTE_SCALE_RAW as int)).clamp_spec(
        Scalar::of(0),
        Scalar::of(BYTE_MAX_RAW as int),
    ).whole_spec() as u8
}

/// Channel `index` of a colour: 0 for red, 1 for green, else blue.
pub open spec fn channel(color: Vector3, index: int) -> Scalar {
    if index == 0 {
        color.x
    } else if index == 1 {
        color.y
    } else {
        color.z
    }
}

/// The bytes of an image: for each cell in turn its red, green and blue.
pub open spec fn image_bytes(cells: Seq<Vector3>, samples: Scalar) -> Seq<u8> {
    Seq::new(3 * cells.len(), |i: int| channel_byte(channel(cells[i / 3], i % 3), samples))
}

/// No light gives the byte 0, whatever the number of samples.
pub proof fn lemma_no_light_is_black(samples: Scalar)
    ensures
        channel_byte(Scalar::of(0), samples) == 0,
{
    assert(0 * ONE_RAW == 0);
    assert(0int / 1_000_000_000 == 0);
    if samples@ != 0 {
        vstd::arithmetic::div_mod::lemma_div_basics(if samples@ < 0 {
            -samples@
        } else {
            samples@
        });
    }
    assert(Scalar::of(0).over(samples)@ == 0);
    assert(Scalar::of(0).over(samples).sqrt_spec()@ == 0);
    assert(0 * BYTE_SCALE_RAW == 0);
}

/// A channel whose mean over the samples is one gives the byte 255.
pub proof fn lemma_full_light_is_white(sum: Scalar, samples: Scalar)
    requires
        sum.over(samples)@ == ONE_RAW,
    ensures
        channel_byte(sum, samples) == 255,
{
    assert(ONE_RAW * ONE_RAW == 1_000_000_000_000_000_000);
    lemma_floor_sqrt_unique(1_000_000_000_000_000_000, 1_000_000_000);
    assert(sum.over(samples).sqrt_spec()@ == ONE_RAW);
    assert(ONE_RAW * BYTE_SCALE_RAW == 255_999_000_000_000_000_000);
    assert(255_999_000_000_000_000_000int / 1_000_000_000 == 255_999_000_000);
    assert(sum.over(samples).sqrt_spec().times(Scalar::of(BYTE_SCALE_RAW as int))@
        == BYTE_SCALE_RAW);
    assert(255_000_000_000int / 1_000_000_000 == 255);
}

/// An image without light is black: every byte is 0.
pub proof fn lemma_dark_image_is_black(cells: Seq<Vector3>, samples: Scalar)
    requires
        forall|k: int| 0 <= k < cells.len() ==> #[trigger] cells[k] == Vector3::zero_spec(),
    ensures
        image_bytes(cells, samples).len() == 3 * cells.len(),
        forall|i: int|
            0 <= i < image_bytes(cells, samples).len() ==> #[trigger] image_bytes(
                cells,
                samples,
            )[i] == 0,
{
    lemma_no_light_is_black(samples);
    assert forall|i: int| 0 <= i < image_bytes(cells, samples).len() implies #[trigger] image_bytes(
        cells,
        samples,
    )[i] == 0 by {
        assert(cells[i / 3] == Vector3::zero_spec());
    }
}

/// An image whose every channel has the mean one is white: every byte is
/// 255.
pub proof fn lemma_bright_image_is_white(cells: Seq<Vector3>, samples: Scalar)
    requires
        forall|k: int|
            0 <= k < cells.len() ==> (#[trigger] cells[k]).x.over(samples)@ == ONE_RAW
                && cells[k].y.over(samples)@ == ONE_RAW && cells[k].z.over(samples)@ == ONE_RAW,
    ensures
        image_bytes(cells, samples).len() == 3 * cells.len(),
        forall|i: int|
            0 <= i < image_bytes(cells, samples).len() ==> #[trigger] image_bytes(
                cells,
                samples,
            )[i] == 255,
{
    assert forall|i: int| 0 <= i < image_bytes(cells, samples).len() implies #[trigger] image_bytes(
        cells,
        samples,
    )[i] == 255 by {
        let cell = cells[i / 3];
        assert(cell.x.over(samples)@ == ONE_RAW);
        lemma_full_light_is_white(channel(cell, i % 3), samples);
    }
}

/// The byte for one channel of a pixel, from the sum of its samples.
pub fn tone_map(sum: Scalar, samples: Scalar) -> (byte: u8)
    ensures
        byte == channel_byte(sum, samples),
{
    let mean = sum / samples;
    let gamma = mean.sqrt();
    let scaled = gamma * Scalar::from_raw(BYTE_SCALE_RAW);
    let held = scaled.clamp(Scalar::zero(), Scalar::from_raw(BYTE_MAX_RAW));
    let whole: i64 = held.whole();
    proof {
        assert(0 <= held@ <= BYTE_MAX_RAW);
        vstd::arithmetic::div_mod::lemma_div_pos_is_pos(held@, ONE_RAW as int);
        vstd::arithmetic::div_mod::lemma_div_is_ordered(
            held@,
            BYTE_MAX_RAW as int,
            ONE_RAW as int,
        );
        assert(255_000_000_000int / 1_000_000_000 == 255);
    }
    whole as u8
}

/// The sums of light for the pixels of an image, row by row from the top.
pub struct FrameBuffer {
    width: usize,
    height: usize,
    cells: Vec<Vector3>,
}

impl View for FrameBuffer {
    type V = Seq<Vector3>;

    /// The cells in row-major order.
    closed spec fn view(&self) -> Seq<Vector3> {
        self.cells@
    }
}

impl FrameBuffer {
    /// Width of the image in pixels.
    pub closed spec fn width_spec(self) -> usize {
        self.width
    }

    /// Height of the image in pixels.
    pub closed spec fn height_spec(self) -> usize {
        self.height
    }

    /// There is one cell for each pixel, and three bytes for each cell can
    /// be counted.
    pub closed spec fn wf(self) -> bool {
        &&& self.cells@.len() == self.width * self.height
        &&& 3 * (self.width * self.height) <= usize::MAX
    }

    /// Where the pixel in column `x` of row `y` lies in the buffer.
    pub open spec fn index_of(self, x: usize, y: usize) -> int {
        y * self.width_spec() + x
    }

    /// A buffer has a cell for each pixel, and its bytes can be counted.
    pub proof fn lemma_size(self)
        requires
            self.wf(),
        ensures
            self@.len() == self.width_spec() * self.height_spec(),
            3 * self@.len() <= usize::MAX,
    {
    }

    /// A buffer without light for an image of `width` by `height` pixels;
    /// none where the bytes of such an image cannot be counted.
    pub fn new(width: usize, height: usize) -> (buffer: Option<FrameBuffer>)
        ensures
            buffer.is_some() <==> 3 * (width * height) <= usize::MAX,
            buffer.is_some() ==> {
                let made = buffer.unwrap();
                &&& made.wf()
                &&& made.width_spec() == width
                &&& made.height_spec() == height
                &&& made@.len() == width * height
                &&& forall|k: int|
                    0 <= k < made@.len() ==> #[trigger] made@[k] == Vector3::zero_spec()
            },
    {
        let pixels = match width.checked_mul(height) {
            Some(pixels) => pixels,
            None => {
                return None;
            },
        };
        if pixels.checked_mul(3).is_none() {
            return None;
        }
        let mut cells: Vec<Vector3> = Vec::new();
        let mut count: usize = 0;
        while count < pixels
            invariant
                count <= pixels,
                cells@.len() == count,
                forall|k: int| 0 <= k < count ==> #[trigger] cells@[k] == Vector3::zero_spec(),
            decreases pixels - count,
        {
            cells.push(Vector3::new(Scalar::zero()));
            count = count + 1;
        }
        Some(FrameBuffer { width, height, cells })
    }

    /// Width of the image in pixels.
    pub fn width(&self) -> (width: usize)
        ensures
            width == self.width_spec(),
    {
        self.width
    }

    /// Height of the image in pixels.
    pub fn height(&self) -> (height: usize)
        ensures
            height == self.height_spec(),
    {
        self.height
    }

    /// The sum of light at the pixel in column `x` of row `y`.
    pub fn get(&self, x: usize, y: usize) -> (sum: Vector3)
        requires
            self.wf(),
            x < self.width_spec(),
            y < self.height_spec(),
        ensures
            0 <= self.index_of(x, y) < self@.len(),
            sum == self@[self.index_of(x, y)],
    {
        proof {
            lemma_cell_in_buffer(self.width, self.height, x, y);
        }
        self.cells[y * self.width + x]
    }

    /// Adds `color` to the sum of light at the pixel in column `x` of row
    /// `y`.
    pub fn accumulate(&mut self, x: usize, y: usize, color: Vector3)
        requires
            old(self).wf(),
            x < old(self).width_spec(),
            y < old(self).height_spec(),
        ensures
            final(self).wf(),
            final(self).width_spec() == old(self).width_spec(),
            final(self).height_spec() == old(self).height_spec(),
            0 <= old(self).index_of(x, y) < old(self)@.len(),
            final(self)@ == old(self)@.update(
                old(self).index_of(x, y),
                old(self)@[old(self).index_of(x, y)].plus(color),
            ),
    {
        proof {
            lemma_cell_in_buffer(self.width, self.height, x, y);
        }
        let index = y * self.width + x;
        let sum = self.cells[index] + color;
        self.cells.set(index, sum);
    }

    /// The image as bytes, three for each pixel, row by row from the top,
    /// where every cell holds the sum of `samples_per_pixel` samples.
    pub fn finalize(&self, samples_per_pixel: usize) -> (bytes: Vec<u8>)
        requires
            self.wf(),
        ensures
            bytes@ == image_bytes(self@, Scalar::of(samples_per_pixel * ONE_RAW)),
            bytes@.len() == 3 * (self.width_spec() * self.height_spec()),
    {
        let samples = Scalar::from_usize(samples_per_pixel);
        let mut bytes: Vec<u8> = Vec::new();
        let mut index: usize = 0;
        while index < self.cells.len()
            invariant
                self.wf(),
                index <= self.cells@.len(),
                samples == Scalar::of(samples_per_pixel * ONE_RAW),
                bytes@.len() == 3 * index,
                forall|i: int|
                    0 <= i < 3 * index ==> #[trigger] bytes@[i] == channel_byte(
                        channel(self.cells@[i / 3], i % 3),
                        samples,
                    ),
            decreases self.cells@.len() - index,
        {
            let cell = self.cells[index];
            bytes.push(tone_map(cell.x, samples));
            bytes.push(tone_map(cell.y, samples));
            bytes.push(tone_map(cell.z, samples));
            index = index + 1;
        }
        assert(bytes@ =~= image_bytes(self@, samples));
        bytes
    }
}

/// The pixel in column `x` of row `y` has a cell in the buffer.
pub proof fn lemma_cell_in_buffer(width: usize, height: usize, x: usize, y: usize)
    requires
        x < width,
        y < height,
    ensures
        0 <= y * width + x < width * height,
{
    assert(0 <= y * width + x < width * height) by (nonlinear_arith)
        requires
            0 <= x < width,
            0 <= y < height,
    ;
}

} // verus!
