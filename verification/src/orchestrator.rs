//! The orchestrator's side of a render.
//!
//! The orchestrator joins the scheduler to the frame buffer: the result that
//! a worker hands in is written to the pixel that the worker held, and the
//! worker gets its next pixel. Every pixel is written exactly once.

use crate::frame::image_bytes;
use crate::frame::FrameBuffer;
use crate::scalar::Scalar;
use crate::scalar::ONE_RAW;
use crate::scheduler::lemma_tasks_cover;
use crate::scheduler::task;
use crate::scheduler::Scheduler;
use crate::scheduler::Worker;
use crate::vec3::Vector3;
use vstd::prelude::*;

verus! {

/// The scheduler and the frame buffer of one render.
pub struct Orchestrator {
    scheduler: Scheduler,
    buffer: FrameBuffer,
    received: Ghost<Map<(usize, usize), Vector3>>,
}

/// What the cell of a pixel holds: the result received for it, added to
/// nothing, or nothing as long as none has come.
pub open spec fn cell_of(received: Map<(usize, usize), Vector3>, pixel: (usize, usize)) -> Vector3 {
    if received.contains_key(pixel) {
        Vector3::zero_spec().plus(received[pixel])
    } else {
        Vector3::zero_spec()
    }
}

impl Orchestrator {
    /// The state of the scheduler.
    pub closed spec fn scheduler_spec(self) -> Scheduler {
        self.scheduler
    }

    /// The cells of the frame buffer in row-major order.
    pub closed spec fn cells(self) -> Seq<Vector3> {
        self.buffer@
    }

    /// The results received so far, each under the pixel that it is for.
    pub closed spec fn received(self) -> Map<(usize, usize), Vector3> {
        self.received@
    }

    /// Width of the image in pixels.
    pub open spec fn width_spec(self) -> usize {
        self.scheduler_spec().width_spec()
    }

    /// Height of the image in pixels.
    pub open spec fn height_spec(self) -> usize {
        self.scheduler_spec().height_spec()
    }

    /// The invariant of a render: a result has been received for exactly
    /// the pixels that were handed out and are held no more, and the cell of
    /// every pixel holds what was received for it.
    pub closed spec fn wf(self) -> bool {
        &&& self.scheduler.wf()
        &&& self.buffer.wf()
        &&& self.buffer.width_spec() == self.scheduler.width_spec()
        &&& self.buffer.height_spec() == self.scheduler.height_spec()
        &&& forall|pixel: (usize, usize)| #[trigger]
            self.received@.contains_key(pixel) <==> self.scheduler.is_sent(pixel)
                && !self.scheduler.is_held(pixel)
        &&& forall|x: usize, y: usize|
            x < self.buffer.width_spec() && y < self.buffer.height_spec() ==> self.buffer@[
            #[trigger] self.buffer.index_of(x, y)] == cell_of(self.received@, (x, y))
    }

    /// What holds of every render in progress.
    pub proof fn lemma_invariant(self)
        requires
            self.wf(),
        ensures
            self.scheduler_spec().wf(),
            self.cells().len() == self.width_spec() * self.height_spec(),
            forall|pixel: (usize, usize)| #[trigger]
                self.received().contains_key(pixel) <==> self.scheduler_spec().is_sent(pixel)
                    && !self.scheduler_spec().is_held(pixel),
            forall|x: usize, y: usize|
                x < self.width_spec() && y < self.height_spec() ==> self.cells()[y
                    * self.width_spec() + x] == #[trigger] cell_of(self.received(), (x, y)),
    {
        self.buffer.lemma_size();
        assert forall|x: usize, y: usize|
            x < self.width_spec() && y < self.height_spec() implies self.cells()[y
            * self.width_spec() + x] == #[trigger] cell_of(self.received(), (x, y)) by {
            assert(self.buffer@[self.buffer.index_of(x, y)] == cell_of(self.received@, (x, y)));
        }
    }

    /// When the render is over and there was a worker at all, a result has
    /// been received for every pixel of the image, and the cell of every
    /// pixel holds that one result.
    pub proof fn lemma_render_complete(self)
        requires
            self.wf(),
            self.scheduler_spec().all_idle(),
            self.scheduler_spec().workers_spec().len() > 0,
        ensures
            self.cells().len() == self.width_spec() * self.height_spec(),
            forall|x: usize, y: usize|
                x < self.width_spec() && y < self.height_spec() ==> #[trigger]
                self.received().contains_key((x, y)) && self.cells()[y * self.width_spec() + x]
                    == Vector3::zero_spec().plus(self.received()[(x, y)]),
    {
        self.lemma_invariant();
        self.scheduler.lemma_retired_means_done(0);
        self.scheduler.lemma_issued_bounded();
        assert forall|x: usize, y: usize|
            x < self.width_spec() && y < self.height_spec() implies #[trigger]
            self.received().contains_key((x, y)) && self.cells()[y * self.width_spec() + x]
            == Vector3::zero_spec().plus(self.received()[(x, y)]) by {
            lemma_tasks_cover(self.width_spec(), self.height_spec(), x, y);
            assert((x, y) == task(self.scheduler.width_spec(), y * self.width_spec() + x));
            assert(self.scheduler.is_sent((x, y)));
            assert(!self.scheduler.is_held((x, y)));
            assert(self.cells()[y * self.width_spec() + x] == cell_of(self.received(), (x, y)));
        }
    }

    /// The orchestrator for an image of `width` by `height` pixels and
    /// `workers` workers, with the first pixels handed out; none where the
    /// bytes of such an image cannot be counted.
    pub fn new(width: usize, height: usize, workers: usize) -> (made: Option<Orchestrator>)
        ensures
            made.is_some() <==> 3 * (width * height) <= usize::MAX,
            made.is_some() ==> {
                let orchestrator = made.unwrap();
                &&& orchestrator.wf()
                &&& orchestrator.width_spec() == width
                &&& orchestrator.height_spec() == height
                &&& orchestrator.received() == Map::<(usize, usize), Vector3>::empty()
                &&& orchestrator.scheduler_spec().workers_spec().len() == workers
                &&& orchestrator.scheduler_spec().issued() == if workers <= width * height {
                    workers as int
                } else {
                    width * height
                }
                &&& forall|i: int|
                    0 <= i < workers ==> (
                    #[trigger] orchestrator.scheduler_spec().workers_spec()[i]).status == (i < width
                        * height)
                &&& forall|i: int|
                    0 <= i < workers && i < width * height ==> (
                    #[trigger] orchestrator.scheduler_spec().workers_spec()[i]).pixel_position
                        == task(width, i)
            },
    {
        let buffer = match FrameBuffer::new(width, height) {
            Some(buffer) => buffer,
            None => {
                return None;
            },
        };
        let scheduler = Scheduler::new(width, height, workers);
        let made = Orchestrator { scheduler, buffer, received: Ghost(Map::empty()) };
        proof {
            assert forall|pixel: (usize, usize)| scheduler.is_sent(pixel) implies scheduler.is_held(
                pixel,
            ) by {
                let k = choose|k: int|
                    0 <= k < scheduler.issued() && pixel == #[trigger] task(
                        scheduler.width_spec(),
                        k,
                    );
                assert(scheduler.workers_spec()[k].status);
                assert(scheduler.workers_spec()[k].pixel_position == pixel);
            }
            assert forall|x: usize, y: usize|
                x < made.buffer.width_spec() && y < made.buffer.height_spec() implies made.buffer@[
            #[trigger] made.buffer.index_of(x, y)] == cell_of(made.received@, (x, y)) by {
                lemma_tasks_cover(width, height, x, y);
            }
        }
        Some(made)
    }

    /// Width of the image in pixels.
    pub fn width(&self) -> (width: usize)
        ensures
            width == self.width_spec(),
    {
        self.scheduler.width()
    }

    /// Height of the image in pixels.
    pub fn height(&self) -> (height: usize)
        ensures
            height == self.height_spec(),
    {
        self.scheduler.height()
    }

    /// How many workers there are.
    pub fn worker_count(&self) -> (count: usize)
        ensures
            count == self.scheduler_spec().workers_spec().len(),
    {
        self.scheduler.worker_count()
    }

    /// What is known of the worker with the number `worker`.
    pub fn worker(&self, worker: usize) -> (state: Worker)
        requires
            worker < self.scheduler_spec().workers_spec().len(),
        ensures
            state == self.scheduler_spec().workers_spec()[worker as int],
    {
        self.scheduler.worker(worker)
    }

    /// Whether the render is over: no worker holds a pixel.
    pub fn finished(&self) -> (done: bool)
        ensures
            done == self.scheduler_spec().all_idle(),
    {
        self.scheduler.finished()
    }

    /// Takes the result that the worker hands in for the pixel it holds,
    /// writes it to the cell of that pixel, and gives the worker the next
    /// pixel in row-major order; none where every pixel has been handed out,
    /// and the worker retires.
    pub fn receive(&mut self, worker: usize, color: Vector3) -> (next: Option<(usize, usize)>)
        requires
            old(self).wf(),
            worker < old(self).scheduler_spec().workers_spec().len(),
            old(self).scheduler_spec().workers_spec()[worker as int].status,
        ensures
            final(self).wf(),
            final(self).width_spec() == old(self).width_spec(),
            final(self).height_spec() == old(self).height_spec(),
            !old(self).received().contains_key(
                old(self).scheduler_spec().workers_spec()[worker as int].pixel_position,
            ),
            final(self).received() == old(self).received().insert(
                old(self).scheduler_spec().workers_spec()[worker as int].pixel_position,
                color,
            ),
            next.is_some() <==> old(self).scheduler_spec().issued()
                < old(self).scheduler_spec().total(),
            next.is_some() ==> next.unwrap() == task(
                old(self).width_spec(),
                old(self).scheduler_spec().issued() as int,
            ) && final(self).scheduler_spec().issued() == old(self).scheduler_spec().issued() + 1,
            next.is_none() ==> final(self).scheduler_spec().issued() == old(
                self,
            ).scheduler_spec().issued(),
            final(self).scheduler_spec().workers_spec() == old(
                self,
            ).scheduler_spec().workers_spec().update(
                worker as int,
                match next {
                    Some(position) => Worker { pixel_position: position, status: true },
                    None => Worker {
                        pixel_position: old(
                            self,
                        ).scheduler_spec().workers_spec()[worker as int].pixel_position,
                        status: false,
                    },
                },
            ),
    {
        let ghost before = *self;
        proof {
            before.scheduler.lemma_busy_workers(worker as int, worker as int);
        }
        let handover = self.scheduler.complete(worker);
        let (x, y) = handover.finished;
        self.buffer.accumulate(x, y, color);
        self.received = Ghost(before.received@.insert(handover.finished, color));
        proof {
            let width = before.buffer.width_spec();
            let height = before.buffer.height_spec();
            before.buffer.lemma_size();
            assert(before.buffer@[before.buffer.index_of(x, y)] == cell_of(
                before.received@,
                (x, y),
            ));
            assert forall|pixel: (usize, usize)| #[trigger]
                self.received@.contains_key(pixel) <==> self.scheduler.is_sent(pixel)
                    && !self.scheduler.is_held(pixel) by {
                assert(before.received@.contains_key(pixel) <==> before.scheduler.is_sent(pixel)
                    && !before.scheduler.is_held(pixel));
            }
            assert forall|a: usize, b: usize| a < width && b < height implies self.buffer@[
            #[trigger] self.buffer.index_of(a, b)] == cell_of(self.received@, (a, b)) by {
                lemma_tasks_cover(width, height, a, b);
                lemma_tasks_cover(width, height, x, y);
                assert(before.buffer@[before.buffer.index_of(a, b)] == cell_of(
                    before.received@,
                    (a, b),
                ));
            }
        }
        handover.next
    }

    /// The sum of light at the pixel in column `x` of row `y`.
    pub fn get(&self, x: usize, y: usize) -> (sum: Vector3)
        requires
            self.wf(),
            x < self.width_spec(),
            y < self.height_spec(),
        ensures
            sum == cell_of(self.received(), (x, y)),
    {
        assert(self.buffer@[self.buffer.index_of(x, y)] == cell_of(self.received@, (x, y)));
        self.buffer.get(x, y)
    }

    /// The image as bytes, three for each pixel, row by row from the top,
    /// where every result is the sum of `samples_per_pixel` samples.
    pub fn finish(&self, samples_per_pixel: usize) -> (bytes: Vec<u8>)
        requires
            self.wf(),
        ensures
            bytes@ == image_bytes(self.cells(), Scalar::of(samples_per_pixel * ONE_RAW)),
            bytes@.len() == 3 * (self.width_spec() * self.height_spec()),
    {
        self.buffer.finalize(samples_per_pixel)
    }
}

} // verus!
